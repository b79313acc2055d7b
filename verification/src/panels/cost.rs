//! The Cost panel: what a session has spent, when and on which model.

use vstd::prelude::*;

use crate::data::{ModelBreakdown, Rates, SessionData};
use crate::figures::{
    adaptive_usd, capped, capped_sum, compact_tokens, compact_usd, fine_usd_text, fixed, tokens_text, usd_text, with_places,
    MOST,
};
use crate::model::{Plan, Session};
use crate::order::{text_before, text_lt};
use crate::styled::{blank, line_of, note, nothing, Ink, Line, LineView, Text};
use crate::text::{cat, left_in, pad_left, pad_right, right_in, same};

verus! {

/// The local calendar: this hour and today, and the days a week and a month
/// begin with that end today.
pub struct Calendar {
    pub hour: String,
    pub today: String,
    pub week: String,
    pub month: String,
}

/// What the first `n` models spent.
pub open spec fn spent_on(models: Seq<(String, u64)>, n: int) -> int
    decreases n,
{
    if n <= 0 {
        0
    } else {
        spent_on(models, n - 1) + models[n - 1].1
    }
}

proof fn spending_is_not_negative(models: Seq<(String, u64)>, n: int)
    ensures
        spent_on(models, n) >= 0,
    decreases n,
{
    if n > 0 {
        spending_is_not_negative(models, n - 1);
    }
}

fn spent_on_of(models: &Vec<(String, u64)>) -> (r: u128)
    ensures
        r == capped(spent_on(models@, models@.len() as int)),
        r <= MOST,
{
    let mut sum: u128 = 0;
    let mut i: usize = 0;
    while i < models.len()
        invariant
            i <= models@.len(),
            sum <= MOST,
            sum == capped(spent_on(models@, i as int)),
        decreases models@.len() - i,
    {
        proof {
            spending_is_not_negative(models@, i as int);
        }
        sum = capped_sum(sum, models[i].1 as u128);
        i += 1;
    }
    sum
}

/// What was spent on the first `n` days, those before `from` left out.
pub open spec fn spent_since(days: Seq<(String, Vec<(String, u64)>)>, from: Seq<char>, n: int) -> int
    decreases n,
{
    if n <= 0 {
        0
    } else {
        let (day, models) = days[n - 1];
        spent_since(days, from, n - 1) + if text_before(day@, from) {
            0
        } else {
            spent_on(models@, models@.len() as int)
        }
    }
}

proof fn spending_since_is_not_negative(days: Seq<(String, Vec<(String, u64)>)>, from: Seq<char>, n: int)
    ensures
        spent_since(days, from, n) >= 0,
    decreases n,
{
    if n > 0 {
        spending_since_is_not_negative(days, from, n - 1);
        spending_is_not_negative(days[n - 1].1@, days[n - 1].1@.len() as int);
    }
}

fn spent_since_of(days: &Vec<(String, Vec<(String, u64)>)>, from: &str) -> (r: u128)
    ensures
        r == capped(spent_since(days@, from@, days@.len() as int)),
        r <= MOST,
{
    let mut sum: u128 = 0;
    let mut i: usize = 0;
    while i < days.len()
        invariant
            i <= days@.len(),
            sum <= MOST,
            sum == capped(spent_since(days@, from@, i as int)),
        decreases days@.len() - i,
    {
        proof {
            spending_since_is_not_negative(days@, from@, i as int);
            spending_is_not_negative(days@[i as int].1@, days@[i as int].1@.len() as int);
        }
        if !text_lt(days[i].0.as_str(), from) {
            sum = capped_sum(sum, spent_on_of(&days[i].1));
        }
        i += 1;
    }
    sum
}

/// What was spent in one hour.
pub open spec fn spent_in(hours: Seq<(String, Vec<(String, u64)>)>, hour: Seq<char>) -> int
    decreases hours.len(),
{
    if hours.len() == 0 {
        0
    } else if hours[0].0@ == hour {
        spent_on(hours[0].1@, hours[0].1@.len() as int)
    } else {
        spent_in(hours.skip(1), hour)
    }
}

fn spent_in_of(hours: &Vec<(String, Vec<(String, u64)>)>, hour: &str) -> (r: u128)
    ensures
        r == capped(spent_in(hours@, hour@)),
        r <= MOST,
{
    let mut i: usize = 0;
    assert(hours@.skip(0) =~= hours@);
    while i < hours.len()
        invariant
            i <= hours@.len(),
            spent_in(hours@, hour@) == spent_in(hours@.skip(i as int), hour@),
        decreases hours@.len() - i,
    {
        if same(hours[i].0.as_str(), hour) {
            return spent_on_of(&hours[i].1);
        }
        assert(hours@.skip(i as int).skip(1) =~= hours@.skip(i + 1));
        i += 1;
    }
    0
}

/// A longer window never holds less.
pub proof fn a_longer_window_holds_more(
    days: Seq<(String, Vec<(String, u64)>)>,
    early: Seq<char>,
    late: Seq<char>,
    n: int,
)
    requires
        early == late || text_before(early, late),
    ensures
        spent_since(days, late, n) <= spent_since(days, early, n),
    decreases n,
{
    if n > 0 {
        a_longer_window_holds_more(days, early, late, n - 1);
        let (day, models) = days[n - 1];
        spending_is_not_negative(models@, models@.len() as int);
        if text_before(day@, early) && early != late {
            crate::order::text_transitive(day@, early, late);
        }
    }
}

/// An amount, or that it cost nothing.
pub open spec fn price_text(amount: u128, free: bool) -> Seq<char> {
    if free {
        "FREE"@
    } else {
        fine_usd_text(amount as nat)
    }
}

fn displayed_cost(amount: u128, free: bool) -> (r: String)
    requires
        amount <= MOST,
    ensures
        r@ == price_text(amount, free),
{
    if free {
        "FREE".to_owned()
    } else {
        adaptive_usd(amount)
    }
}

/// The ink of an amount.
pub open spec fn price_ink(amount: u128, free: bool) -> Ink {
    if free {
        Ink::Dimmer
    } else {
        Ink::Amount(amount)
    }
}

fn cost_ink(amount: u128, free: bool) -> (r: Ink)
    ensures
        r == price_ink(amount, free),
{
    if free {
        Ink::Dimmer
    } else {
        Ink::Amount(amount)
    }
}

/// Whether a model did its work for nothing.
pub open spec fn free_model(m: ModelBreakdown) -> bool {
    m.total == 0 && m.tokens.input + m.tokens.cache_read + m.tokens.cached_input + m.tokens.cache_write_5m
        + m.tokens.cache_write_1h + m.tokens.output + m.tokens.reasoning_output > 0
}

fn is_free_model(m: &ModelBreakdown) -> (r: bool)
    ensures
        r == free_model(*m),
{
    m.total == 0 && m.tokens.input as u128 + m.tokens.cache_read as u128 + m.tokens.cached_input as u128
        + m.tokens.cache_write_5m as u128 + m.tokens.cache_write_1h as u128 + m.tokens.output as u128
        + m.tokens.reasoning_output as u128 > 0
}

/// What was spent in one window.
pub open spec fn window_line(name: Seq<char>, amount: u128, free: bool) -> LineView {
    blank().with("  "@ + left_in(name, 10), Ink::Label).with(
        right_in(price_text(amount, free), 10),
        price_ink(amount, free),
    )
}

fn window_line_of(name: &str, amount: u128, free: bool) -> (r: Line)
    requires
        amount <= MOST,
    ensures
        r@ == window_line(name@, amount, free),
{
    let mut l = Line::new();
    l.put(cat("  ", pad_right(name, 10).as_str()).as_str(), Ink::Label);
    l.put(pad_left(displayed_cost(amount, free).as_str(), 10).as_str(), cost_ink(amount, free));
    l
}

/// What a model did of one kind, where it did any.
pub open spec fn kind_lines(name: Seq<char>, tokens: nat, amount: u128, free: bool) -> Seq<LineView> {
    if tokens == 0 {
        nothing()
    } else {
        nothing().push(
            blank().with("  "@ + left_in(name, 9), Ink::Label).with(right_in(tokens_text(tokens), 8), Ink::Value).with(
                "  "@,
                Ink::Plain,
            ).with(right_in(price_text(amount, free), 10), price_ink(amount, free)),
        )
    }
}

fn kind(name: &str, tokens: u128, amount: u128, free: bool) -> (r: Text)
    requires
        tokens <= MOST,
        amount <= MOST,
    ensures
        r@ == kind_lines(name@, tokens as nat, amount, free),
{
    let mut t = Text::new();
    if tokens > 0 {
        let mut l = Line::new();
        l.put(cat("  ", pad_right(name, 9).as_str()).as_str(), Ink::Label);
        l.put(pad_left(compact_tokens(tokens).as_str(), 8).as_str(), Ink::Value);
        l.put("  ", Ink::Plain);
        l.put(pad_left(displayed_cost(amount, free).as_str(), 10).as_str(), cost_ink(amount, free));
        t.push(l);
    }
    t
}

/// What one model did.
pub open spec fn model_lines(m: ModelBreakdown) -> Seq<LineView> {
    let free = free_model(m);
    nothing().push(blank()).push(
        blank().with(m.model@, Ink::Value).with("  "@, Ink::Plain).with(
            price_text(m.total as u128, free),
            price_ink(m.total as u128, free),
        ),
    ) + kind_lines("in"@, m.tokens.input as nat, m.costs.input as u128, free) + kind_lines(
        "out"@,
        m.tokens.output as nat,
        m.costs.output as u128,
        free,
    ) + kind_lines(
        "cache↓"@,
        (m.tokens.cache_read + m.tokens.cached_input) as nat,
        (m.costs.cache_read + m.costs.cached_input) as u128,
        free,
    ) + kind_lines(
        "cache↑"@,
        (m.tokens.cache_write_5m + m.tokens.cache_write_1h) as nat,
        (m.costs.cache_write_5m + m.costs.cache_write_1h) as u128,
        free,
    ) + kind_lines("reasoning"@, m.tokens.reasoning_output as nat, 0, free)
}

fn model(m: &ModelBreakdown) -> (r: Text)
    ensures
        r@ == model_lines(*m),
{
    let free = is_free_model(m);
    let mut t = Text::new();
    t.gap();
    let mut l = Line::new();
    l.put(m.model.as_str(), Ink::Value);
    l.put("  ", Ink::Plain);
    l.put(displayed_cost(m.total as u128, free).as_str(), cost_ink(m.total as u128, free));
    t.push(l);
    t.append(kind("in", m.tokens.input as u128, m.costs.input as u128, free));
    t.append(kind("out", m.tokens.output as u128, m.costs.output as u128, free));
    t.append(
        kind(
            "cache↓",
            m.tokens.cache_read as u128 + m.tokens.cached_input as u128,
            m.costs.cache_read as u128 + m.costs.cached_input as u128,
            free,
        ),
    );
    t.append(
        kind(
            "cache↑",
            m.tokens.cache_write_5m as u128 + m.tokens.cache_write_1h as u128,
            m.costs.cache_write_5m as u128 + m.costs.cache_write_1h as u128,
            free,
        ),
    );
    t.append(kind("reasoning", m.tokens.reasoning_output as u128, 0, free));
    t
}

/// What the first `n` models did.
pub open spec fn models_lines(models: Seq<ModelBreakdown>, n: int) -> Seq<LineView>
    decreases n,
{
    if n <= 0 {
        nothing()
    } else {
        models_lines(models, n - 1) + model_lines(models[n - 1])
    }
}

/// The total, and what was spent lately.
pub open spec fn spending_lines(s: Session, d: SessionData, cal: Calendar) -> Seq<LineView> {
    let free = s.cost_is_free;
    let days = d.costs_by_day@;
    let n = days.len() as int;
    nothing().push(
        blank().with("Total cost"@, Ink::Label).with("  "@, Ink::Plain).with_bold(
            price_text(d.costs.total as u128, free),
            price_ink(d.costs.total as u128, free),
        ),
    ).push(blank().with("estimate: tokens × published per-token rates"@, Ink::Dim)).push(blank()).push(
        window_line("this hour"@, capped(spent_in(d.costs_by_hour@, cal.hour@)), free),
    ).push(window_line("today"@, capped(spent_since(days, cal.today@, n)), free)).push(
        window_line("7 days"@, capped(spent_since(days, cal.week@, n)), free),
    ).push(window_line("30 days"@, capped(spent_since(days, cal.month@, n)), free))
}

fn spending(s: &Session, d: &SessionData, cal: &Calendar) -> (r: Text)
    ensures
        r@ == spending_lines(*s, *d, *cal),
{
    let free = s.cost_is_free;
    let total: u128 = d.costs.total as u128;
    let mut t = Text::new();
    let mut l = Line::new();
    l.put("Total cost", Ink::Label);
    l.put("  ", Ink::Plain);
    l.put_bold(displayed_cost(total, free).as_str(), cost_ink(total, free));
    t.push(l);
    t.push(line_of("estimate: tokens × published per-token rates", Ink::Dim));
    t.gap();
    t.push(window_line_of("this hour", spent_in_of(&d.costs_by_hour, cal.hour.as_str()), free));
    t.push(window_line_of("today", spent_since_of(&d.costs_by_day, cal.today.as_str()), free));
    t.push(window_line_of("7 days", spent_since_of(&d.costs_by_day, cal.week.as_str()), free));
    t.push(window_line_of("30 days", spent_since_of(&d.costs_by_day, cal.month.as_str()), free));
    t
}

/// The amounts of a list, added up.
pub open spec fn summed(amounts: Seq<int>) -> int {
    amounts.fold_left(0, |sum: int, a: int| sum + a)
}

/// The amounts of the models.
pub open spec fn amounts_of(models: Seq<(String, u64)>) -> Seq<int> {
    Seq::new(models.len(), |i: int| models[i].1 as int)
}

/// The days that are not before `from`.
pub open spec fn days_from(days: Seq<(String, Vec<(String, u64)>)>, from: Seq<char>) -> Seq<
    (String, Vec<(String, u64)>),
> {
    days.filter(|d: (String, Vec<(String, u64)>)| !text_before(d.0@, from))
}

/// What each of the days came to.
pub open spec fn sums_of(days: Seq<(String, Vec<(String, u64)>)>) -> Seq<int> {
    Seq::new(days.len(), |i: int| summed(amounts_of(days[i].1@)))
}

proof fn every_model_counts(models: Seq<(String, u64)>, n: int)
    requires
        0 <= n <= models.len(),
    ensures
        spent_on(models, n) == summed(amounts_of(models).take(n)),
    decreases n,
{
    let all = amounts_of(models).take(n);
    if n > 0 {
        every_model_counts(models, n - 1);
        assert(all.drop_last() =~= amounts_of(models).take(n - 1));
    }
}

proof fn every_day_counts(days: Seq<(String, Vec<(String, u64)>)>, from: Seq<char>, n: int)
    requires
        0 <= n <= days.len(),
    ensures
        spent_since(days, from, n) == summed(sums_of(days_from(days.take(n), from))),
    decreases n,
{
    let here = days.take(n);
    let keep = |d: (String, Vec<(String, u64)>)| !text_before(d.0@, from);
    reveal(Seq::filter);
    if n > 0 {
        every_day_counts(days, from, n - 1);
        assert(here.drop_last() =~= days.take(n - 1));
        assert(here.last() == days[n - 1]);
        let before = days_from(days.take(n - 1), from);
        if keep(days[n - 1]) {
            let all = sums_of(days_from(here, from));
            let models = days[n - 1].1@;
            every_model_counts(models, models.len() as int);
            assert(amounts_of(models).take(models.len() as int) =~= amounts_of(models));
            assert(days_from(here, from) == before.push(days[n - 1]));
            assert(all.drop_last() =~= sums_of(before));
            assert(all.last() == summed(amounts_of(models)));
        } else {
            assert(days_from(here, from) == before);
        }
    } else {
        assert(days_from(here, from) =~= Seq::empty());
        assert(sums_of(days_from(here, from)) =~= Seq::empty());
    }
}

/// What stands on the lines named after a window is the sum, over every model, of the
/// days that are not before the day the window begins with.
pub proof fn a_window_holds_its_days(s: Session, d: SessionData, cal: Calendar)
    ensures
        ({
            let lines = spending_lines(s, d, cal);
            let days = d.costs_by_day@;
            let free = s.cost_is_free;
            &&& lines[4] == window_line("today"@, capped(summed(sums_of(days_from(days, cal.today@)))), free)
            &&& lines[5] == window_line("7 days"@, capped(summed(sums_of(days_from(days, cal.week@)))), free)
            &&& lines[6] == window_line("30 days"@, capped(summed(sums_of(days_from(days, cal.month@)))), free)
        }),
{
    let days = d.costs_by_day@;
    let n = days.len() as int;
    assert(days.take(n) =~= days);
    every_day_counts(days, cal.today@, n);
    every_day_counts(days, cal.week@, n);
    every_day_counts(days, cal.month@, n);
}

proof fn days_left_out_do_not_count(
    a: Seq<(String, Vec<(String, u64)>)>,
    b: Seq<(String, Vec<(String, u64)>)>,
    from: Seq<char>,
    n: int,
)
    requires
        0 <= n <= a.len(),
        a.len() == b.len(),
        forall|i: int|
            0 <= i < n ==> #[trigger] a[i] == b[i] || text_before(a[i].0@, from) && text_before(b[i].0@, from),
    ensures
        spent_since(a, from, n) == spent_since(b, from, n),
    decreases n,
{
    if n > 0 {
        days_left_out_do_not_count(a, b, from, n - 1);
        assert(a[n - 1] == b[n - 1] || text_before(a[n - 1].0@, from) && text_before(b[n - 1].0@, from));
    }
}

/// What was spent on a day does not show in a window that begins after it: two
/// transcripts that differ only in days before `from` have the same line for the
/// window that begins with `from`.
pub proof fn days_before_a_window_do_not_show(s: Session, d: SessionData, e: SessionData, cal: Calendar, from: Seq<char>)
    requires
        d.costs_by_day@.len() == e.costs_by_day@.len(),
        forall|i: int|
            0 <= i < d.costs_by_day@.len() ==> #[trigger] d.costs_by_day@[i] == e.costs_by_day@[i] || text_before(
                d.costs_by_day@[i].0@,
                from,
            ) && text_before(e.costs_by_day@[i].0@, from),
    ensures
        cal.today@ == from ==> spending_lines(s, d, cal)[4] == spending_lines(s, e, cal)[4],
        cal.week@ == from ==> spending_lines(s, d, cal)[5] == spending_lines(s, e, cal)[5],
        cal.month@ == from ==> spending_lines(s, d, cal)[6] == spending_lines(s, e, cal)[6],
{
    days_left_out_do_not_count(d.costs_by_day@, e.costs_by_day@, from, d.costs_by_day@.len() as int);
}

/// What was spent today is no more than what was spent in the week, and that no more
/// than in the month.
pub proof fn a_longer_window_shows_no_less(s: Session, d: SessionData, cal: Calendar)
    requires
        cal.month@ == cal.week@ || text_before(cal.month@, cal.week@),
        cal.week@ == cal.today@ || text_before(cal.week@, cal.today@),
    ensures
        exists|today: u128, week: u128, month: u128|
            {
                &&& today <= week <= month
                &&& spending_lines(s, d, cal)[4] == #[trigger] window_line("today"@, today, s.cost_is_free)
                &&& spending_lines(s, d, cal)[5] == #[trigger] window_line("7 days"@, week, s.cost_is_free)
                &&& spending_lines(s, d, cal)[6] == #[trigger] window_line("30 days"@, month, s.cost_is_free)
            },
{
    let days = d.costs_by_day@;
    let n = days.len() as int;
    a_longer_window_holds_more(days, cal.week@, cal.today@, n);
    a_longer_window_holds_more(days, cal.month@, cal.week@, n);
    spending_since_is_not_negative(days, cal.today@, n);
    let today = capped(spent_since(days, cal.today@, n));
    let week = capped(spent_since(days, cal.week@, n));
    let month = capped(spent_since(days, cal.month@, n));
    assert(today <= week <= month);
    assert(spending_lines(s, d, cal)[4] == window_line("today"@, today, s.cost_is_free));
    assert(spending_lines(s, d, cal)[5] == window_line("7 days"@, week, s.cost_is_free));
    assert(spending_lines(s, d, cal)[6] == window_line("30 days"@, month, s.cost_is_free));
}

proof fn an_hour_is_found(hours: Seq<(String, Vec<(String, u64)>)>, hour: Seq<char>, k: int)
    requires
        0 <= k <= hours.len(),
        forall|i: int| 0 <= i < k ==> (#[trigger] hours[i]).0@ != hour,
        k < hours.len() ==> hours[k].0@ == hour,
    ensures
        spent_in(hours, hour) == if k < hours.len() {
            summed(amounts_of(hours[k].1@))
        } else {
            0
        },
    decreases k,
{
    if k > 0 {
        assert(hours[0].0@ != hour);
        assert forall|i: int| 0 <= i < k - 1 implies (#[trigger] hours.skip(1)[i]).0@ != hour by {
            assert(hours.skip(1)[i] == hours[i + 1]);
        }
        an_hour_is_found(hours.skip(1), hour, k - 1);
    } else if hours.len() > 0 {
        let models = hours[0].1@;
        every_model_counts(models, models.len() as int);
        assert(amounts_of(models).take(models.len() as int) =~= amounts_of(models));
    }
}

/// The line of this hour has what every model spent in this hour and in no other, and
/// nothing where the hour is not among those in which something was spent; the first
/// line has what the session cost.
pub proof fn this_hour_is_the_hour_it_is(s: Session, d: SessionData, cal: Calendar, k: int)
    requires
        0 <= k <= d.costs_by_hour@.len(),
        forall|i: int| 0 <= i < k ==> (#[trigger] d.costs_by_hour@[i]).0@ != cal.hour@,
        k < d.costs_by_hour@.len() ==> d.costs_by_hour@[k].0@ == cal.hour@,
    ensures
        spending_lines(s, d, cal).len() == 7,
        spending_lines(s, d, cal)[3] == window_line(
            "this hour"@,
            if k < d.costs_by_hour@.len() {
                capped(summed(amounts_of(d.costs_by_hour@[k].1@)))
            } else {
                0
            },
            s.cost_is_free,
        ),
        spending_lines(s, d, cal)[0].spans[2].text == if s.cost_is_free {
            "FREE"@
        } else {
            fine_usd_text(d.costs.total as nat)
        },
{
    an_hour_is_found(d.costs_by_hour@, cal.hour@, k);
}

/// The line of a window begins with its name and ends with its amount.
pub proof fn a_window_is_named_beside_its_amount(name: Seq<char>, amount: u128)
    ensures
        ({
            let spans = window_line(name, amount, false).spans;
            let pad = spans[1].text.len() - fine_usd_text(amount as nat).len();
            &&& spans.len() == 2
            &&& spans[0].text.skip(2).take(name.len() as int) == name
            &&& spans[1].text.skip(pad) == fine_usd_text(amount as nat)
            &&& spans[1].ink == Ink::Amount(amount)
            &&& window_line(name, amount, true).spans[1].text.skip(
                window_line(name, amount, true).spans[1].text.len() - 4,
            ) == "FREE"@
        }),
{
    reveal_strlit("  ");
    reveal_strlit("FREE");
    let money = fine_usd_text(amount as nat);
    let spans = window_line(name, amount, false).spans;
    assert(spans[0].text.skip(2) =~= left_in(name, 10));
    assert(left_in(name, 10).take(name.len() as int) =~= name);
    assert(spans[1].text == right_in(money, 10));
    assert(right_in(money, 10).skip(right_in(money, 10).len() - money.len()) =~= money);
    assert(right_in("FREE"@, 10).skip(right_in("FREE"@, 10).len() - 4) =~= "FREE"@);
}

/// Each kind of tokens a model used stands on a line with its own name, its own count
/// and its own cost, and a kind it did not use has none.
pub proof fn a_kind_has_its_own_figures(m: ModelBreakdown)
    ensures
        ({
            let free = free_model(m);
            let lines = model_lines(m);
            let kinds = seq![
                ("in"@, m.tokens.input as nat, m.costs.input as u128),
                ("out"@, m.tokens.output as nat, m.costs.output as u128),
                (
                    "cache↓"@,
                    (m.tokens.cache_read + m.tokens.cached_input) as nat,
                    (m.costs.cache_read + m.costs.cached_input) as u128,
                ),
                (
                    "cache↑"@,
                    (m.tokens.cache_write_5m + m.tokens.cache_write_1h) as nat,
                    (m.costs.cache_write_5m + m.costs.cache_write_1h) as u128,
                ),
                ("reasoning"@, m.tokens.reasoning_output as nat, 0u128),
            ];
            &&& lines[1].spans[0].text == m.model@
            &&& !free ==> lines[1].spans[2].text == fine_usd_text(m.total as nat)
            &&& forall|k: int|
                0 <= k < 5 && (#[trigger] kinds[k]).1 > 0 ==> exists|i: int|
                    {
                        &&& 2 <= i < lines.len()
                        &&& (#[trigger] lines[i]).spans[0].text == "  "@ + left_in(kinds[k].0, 9)
                        &&& lines[i].spans[1].text == right_in(tokens_text(kinds[k].1), 8)
                        &&& !free ==> lines[i].spans[3].text == right_in(fine_usd_text(kinds[k].2 as nat), 10)
                        &&& free ==> lines[i].spans[3].text == right_in("FREE"@, 10)
                    }
            &&& lines.len() == 2 + (if kinds[0].1 > 0 {
                1int
            } else {
                0
            }) + (if kinds[1].1 > 0 {
                1int
            } else {
                0
            }) + (if kinds[2].1 > 0 {
                1int
            } else {
                0
            }) + (if kinds[3].1 > 0 {
                1int
            } else {
                0
            }) + (if kinds[4].1 > 0 {
                1int
            } else {
                0
            })
        }),
{
    let free = free_model(m);
    let lines = model_lines(m);
    let a = nothing().push(blank()).push(
        blank().with(m.model@, Ink::Value).with("  "@, Ink::Plain).with(
            price_text(m.total as u128, free),
            price_ink(m.total as u128, free),
        ),
    );
    let b = a + kind_lines("in"@, m.tokens.input as nat, m.costs.input as u128, free);
    let c = b + kind_lines("out"@, m.tokens.output as nat, m.costs.output as u128, free);
    let d = c + kind_lines(
        "cache↓"@,
        (m.tokens.cache_read + m.tokens.cached_input) as nat,
        (m.costs.cache_read + m.costs.cached_input) as u128,
        free,
    );
    let e = d + kind_lines(
        "cache↑"@,
        (m.tokens.cache_write_5m + m.tokens.cache_write_1h) as nat,
        (m.costs.cache_write_5m + m.costs.cache_write_1h) as u128,
        free,
    );
    assert(lines == e + kind_lines("reasoning"@, m.tokens.reasoning_output as nat, 0, free));
    assert(m.tokens.input > 0 ==> lines[a.len() as int] == b.last());
    assert(m.tokens.output > 0 ==> lines[b.len() as int] == c.last());
    assert(m.tokens.cache_read + m.tokens.cached_input > 0 ==> lines[c.len() as int] == d.last());
    assert(m.tokens.cache_write_5m + m.tokens.cache_write_1h > 0 ==> lines[d.len() as int] == e.last());
    assert(m.tokens.reasoning_output > 0 ==> lines[e.len() as int] == lines.last());
}

/// A model worked for nothing where it used any tokens and they cost nothing.
pub proof fn work_is_free_where_it_cost_nothing(m: ModelBreakdown)
    ensures
        free_model(m) ==> m.total == 0,
        m.total == 0 && m.tokens.input > 0 ==> free_model(m),
        m.total == 0 && m.tokens.output > 0 ==> free_model(m),
        m.total == 0 && m.tokens.cache_read > 0 ==> free_model(m),
        m.total == 0 && m.tokens.cached_input > 0 ==> free_model(m),
        m.total == 0 && m.tokens.cache_write_5m > 0 ==> free_model(m),
        m.total == 0 && m.tokens.cache_write_1h > 0 ==> free_model(m),
        m.total == 0 && m.tokens.reasoning_output > 0 ==> free_model(m),
        free_model(m) ==> model_lines(m).len() > 2,
{
    a_kind_has_its_own_figures(m);
}

/// The published rates.
pub open spec fn rates_text(r: Rates) -> Seq<char> {
    "rates per 1M tokens — in $"@ + fixed(r.input as nat, 1_000_000_000, 100, 2) + "  cached $"@ + fixed(
        r.cached_input as nat,
        1_000_000_000,
        1000,
        3,
    ) + "  out $"@ + fixed(r.output as nat, 1_000_000_000, 100, 2)
}

/// What the Cost panel says of a session that has one.
pub open spec fn cost_lines(s: Session, d: SessionData, plan: Plan, cal: Calendar) -> Seq<LineView> {
    if !s.cost_available {
        nothing().push(blank().with("Cost and token usage are not present in Cursor transcripts."@, Ink::Dim))
    } else if plan.bundles(s.provider) && !s.cost_is_free {
        nothing().push(
            blank().with("Total cost"@, Ink::Label).with("  "@, Ink::Plain).with("included in plan"@, Ink::Dim),
        ).push(blank()).push(blank().with("Retail-equivalent: "@ + usd_text(d.costs.total as nat), Ink::Dim))
    } else {
        let t = spending_lines(s, d, cal) + models_lines(d.model_breakdown@, d.model_breakdown@.len() as int);
        match d.rates {
            Some(r) => t.push(blank()).push(blank().with(rates_text(r), Ink::Dim)),
            None => t,
        }
    }
}

#[verifier::rlimit(40)]
proof fn models_stand_in_a_row(models: Seq<ModelBreakdown>, n: int, k: int)
    requires
        0 <= k < n <= models.len(),
    ensures
        models_lines(models, k).len() + model_lines(models[k]).len() <= models_lines(models, n).len(),
        models_lines(models, n).subrange(
            models_lines(models, k).len() as int,
            (models_lines(models, k).len() + model_lines(models[k]).len()) as int,
        ) == model_lines(models[k]),
    decreases n,
{
    let before = models_lines(models, n - 1);
    let last = model_lines(models[n - 1]);
    let from = models_lines(models, k).len() as int;
    let to = from + model_lines(models[k]).len();
    assert(models_lines(models, n) == before + last);
    if k < n - 1 {
        models_stand_in_a_row(models, n - 1, k);
        a_part_stays(before, last, from, to);
    } else {
        a_part_stays(before, last, 0, 0);
    }
}

proof fn a_part_stays(before: Seq<LineView>, last: Seq<LineView>, from: int, to: int)
    requires
        0 <= from <= to <= before.len(),
    ensures
        (before + last).subrange(from, to) == before.subrange(from, to),
        (before + last).subrange(before.len() as int, (before.len() + last.len()) as int) == last,
{
    assert((before + last).subrange(from, to) =~= before.subrange(from, to));
    assert((before + last).subrange(before.len() as int, (before.len() + last.len()) as int) =~= last);
}

proof fn a_part_is_shifted(top: Seq<LineView>, middle: Seq<LineView>, end: Seq<LineView>, from: int, to: int)
    requires
        0 <= from <= to <= middle.len(),
    ensures
        (top + middle + end).take(top.len() as int) == top,
        (top + middle + end).subrange(top.len() + from, top.len() + to) == middle.subrange(from, to),
{
    let all = top + middle + end;
    assert(all.take(top.len() as int) =~= top);
    assert(all.subrange(top.len() + from, top.len() + to) =~= middle.subrange(from, to));
}

/// Where a session is paid for by use, the panel has what was spent lately and then
/// every model with its own figures; where the plan includes it, it says so, and what
/// it would have cost is dimmed.
#[verifier::rlimit(40)]
pub proof fn every_model_is_accounted_for(s: Session, d: SessionData, plan: Plan, cal: Calendar, k: int)
    requires
        s.cost_available,
        0 <= k < d.model_breakdown@.len(),
    ensures
        !plan.bundles(s.provider) || s.cost_is_free ==> {
            &&& cost_lines(s, d, plan, cal).take(7) == spending_lines(s, d, cal)
            &&& exists|i: int, j: int|
                #[trigger] cost_lines(s, d, plan, cal).subrange(i, j) == model_lines(d.model_breakdown@[k]) && 0 <= i <= j
                    <= cost_lines(s, d, plan, cal).len()
        },
        plan.bundles(s.provider) && !s.cost_is_free ==> {
            &&& cost_lines(s, d, plan, cal)[0].spans[2].text == "included in plan"@
            &&& cost_lines(s, d, plan, cal)[2].spans[0].text == "Retail-equivalent: "@ + usd_text(d.costs.total as nat)
            &&& cost_lines(s, d, plan, cal)[2].spans[0].ink == Ink::Dim
        },
{
    if !plan.bundles(s.provider) || s.cost_is_free {
        let models = d.model_breakdown@;
        let n = models.len() as int;
        models_stand_in_a_row(models, n, k);
        let all = cost_lines(s, d, plan, cal);
        let top = spending_lines(s, d, cal);
        let middle = models_lines(models, n);
        let end = match d.rates {
            Some(r) => nothing().push(blank()).push(blank().with(rates_text(r), Ink::Dim)),
            None => nothing(),
        };
        let from = models_lines(models, k).len() as int;
        let to = from + model_lines(models[k]).len();
        assert(top.len() == 7);
        assert(all =~= top + middle + end);
        a_part_is_shifted(top, middle, end, from, to);
        assert(all.subrange(7 + from, 7 + to) == model_lines(models[k]));
    }
}

/// The Cost panel.
pub fn cost(session: &Session, data: Option<&SessionData>, plan: Plan, cal: &Calendar) -> (r: Text)
    ensures
        match data {
            None => r@ == nothing().push(blank().with("Loading…"@, Ink::Dim)),
            Some(d) => r@ == cost_lines(*session, *d, plan, *cal),
        },
{
    let d = match data {
        None => {
            return note("Loading…", Ink::Dim);
        },
        Some(d) => d,
    };
    if !session.cost_available {
        return note("Cost and token usage are not present in Cursor transcripts.", Ink::Dim);
    }
    if plan.includes(session.provider) && !session.cost_is_free {
        let mut t = Text::new();
        let mut l = Line::new();
        l.put("Total cost", Ink::Label);
        l.put("  ", Ink::Plain);
        l.put("included in plan", Ink::Dim);
        t.push(l);
        t.gap();
        let text = cat("Retail-equivalent: ", compact_usd(d.costs.total as u128).as_str());
        t.push(line_of(text.as_str(), Ink::Dim));
        return t;
    }
    let mut t = spending(session, d, cal);
    let ghost top = t@;
    let models = &d.model_breakdown;
    let mut i: usize = 0;
    assert(top + models_lines(models@, 0) =~= top);
    while i < models.len()
        invariant
            i <= models@.len(),
            t@ == top + models_lines(models@, i as int),
        decreases models@.len() - i,
    {
        t.append(model(&models[i]));
        assert(t@ =~= top + models_lines(models@, i + 1));
        i += 1;
    }
    match &d.rates {
        Some(r) => {
            t.gap();
            let mut s = cat("rates per 1M tokens — in $", with_places(r.input as u128, 1_000_000_000, 100, 2).as_str());
            s.append("  cached $");
            s.append(with_places(r.cached_input as u128, 1_000_000_000, 1000, 3).as_str());
            s.append("  out $");
            s.append(with_places(r.output as u128, 1_000_000_000, 100, 2).as_str());
            t.push(line_of(s.as_str(), Ink::Dim));
        },
        None => {},
    }
    t
}

/// The published rates are told each as what it is: for what goes in, for what is
/// cached and for what comes out.
pub proof fn a_rate_is_told_as_what_it_is(r: Rates)
    ensures
        ({
            let into = "rates per 1M tokens — in $"@ + fixed(r.input as nat, 1_000_000_000, 100, 2);
            let cached = "  cached $"@ + fixed(r.cached_input as nat, 1_000_000_000, 1000, 3);
            let out = "  out $"@ + fixed(r.output as nat, 1_000_000_000, 100, 2);
            rates_text(r) == into + cached + out
        }),
{
    let into = "rates per 1M tokens — in $"@ + fixed(r.input as nat, 1_000_000_000, 100, 2);
    let cached = "  cached $"@ + fixed(r.cached_input as nat, 1_000_000_000, 1000, 3);
    let out = "  out $"@ + fixed(r.output as nat, 1_000_000_000, 100, 2);
    assert(rates_text(r) =~= into + cached + out);
}

} // verus!
