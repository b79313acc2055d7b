//! The panel at the top: what is being spent, where it goes, and what the machine
//! is doing.

use vstd::prelude::*;

use crate::figures::{
    adaptive_usd, capped, capped_sum, compact_tokens, fine_usd_text, fixed, nearest_even, to_nearest_even, tokens_text,
    with_places, MOST,
};
use crate::styled::{blank, nothing, Ink, Line, LineView, Text};
use crate::text::{cat, count, cut, dec, decimal, left_in, pad_left, pad_right, repeat, right_in, times, truncate};

verus! {

/// The longest series that is charted: one month, one dot a day. Every chart is
/// drawn at this width or narrower and right-aligned into it, so that the newest
/// sample of each row is in the same column.
pub const SPARK_W: usize = 31;

/// Content rows the panel has.
pub const ROWS: usize = 4;

/// Width of the machine's column.
pub const MACHINE_W: usize = 42;

/// The least room the breakdown is worth drawing in.
pub const MIN_GRID_W: usize = 30;

/// What a cell of the breakdown would like to be wide.
pub const CELL_W: usize = 27;

/// What all sessions come to. Amounts are in billionths of a dollar.
pub struct Stats {
    pub spend_per_min: u64,
    pub spend_today: u64,
    pub spend_calendar_month: u64,
    pub spend_total: u64,
    /// What each project spent today, most first.
    pub top_today: Vec<(String, u64)>,
    /// What each model spent today, most first.
    pub models_today: Vec<(String, u64)>,
    pub total: usize,
    pub running: usize,
    pub active_24h: usize,
    /// In tenths of a percent.
    pub total_cpu: u64,
    /// In bytes.
    pub total_memory: u64,
    pub total_input: u64,
    pub total_output: u64,
}

/// How wide the parts of the panel are.
#[derive(Debug, Clone, Copy, PartialEq, Eq, Structural)]
pub struct Columns {
    /// The charts.
    pub spark: usize,
    /// What is spent, charts and all.
    pub left: usize,
    /// Where it goes.
    pub mid: usize,
    /// The machine.
    pub right: usize,
}

/// How wide the parts are in a panel of `width` cells: the charts shrink first,
/// the machine's figures are a fixed width, and what is left beyond those goes to
/// the breakdown, or is not used where it is too narrow for a name.
pub open spec fn columns_in(width: int) -> Columns {
    let spark = if width < 26 {
        0
    } else if width - 26 > SPARK_W {
        SPARK_W as int
    } else {
        width - 26
    };
    let left = 26 + spark;
    let rest = if width < left {
        0
    } else {
        width - left
    };
    Columns {
        spark: spark as usize,
        left: left as usize,
        mid: (if rest >= MACHINE_W + MIN_GRID_W {
            rest - MACHINE_W
        } else {
            0
        }) as usize,
        right: (if rest >= MACHINE_W + MIN_GRID_W {
            MACHINE_W as int
        } else if rest >= 20 {
            rest
        } else {
            0
        }) as usize,
    }
}

/// How wide the parts of the panel are.
pub fn columns(width: u16) -> (r: Columns)
    ensures
        r == columns_in(width as int),
{
    let room: usize = (width as usize).saturating_sub(26);
    let spark: usize = if room > SPARK_W {
        SPARK_W
    } else {
        room
    };
    let left: usize = 26 + spark;
    let rest: usize = (width as usize).saturating_sub(left);
    if rest >= MACHINE_W + MIN_GRID_W {
        Columns { spark, left, mid: rest - MACHINE_W, right: MACHINE_W }
    } else if rest >= 20 {
        Columns { spark, left, mid: 0, right: rest }
    } else {
        Columns { spark, left, mid: 0, right: 0 }
    }
}

/// The parts fit the panel, where it has room for the amounts at all.
pub proof fn the_parts_fit_the_panel(width: int)
    requires
        26 <= width <= u16::MAX,
    ensures
        ({
            let c = columns_in(width);
            c.left + c.mid + c.right <= width && c.spark <= SPARK_W && (c.mid > 0 ==> c.mid >= MIN_GRID_W)
        }),
{
}

/// The blanks before a chart of `samples` in `width` cells, and the cells the
/// chart gets.
///
/// The lead is blank rather than a baseline: a dot is a reading, and the hours
/// that have not happened yet have not read zero.
pub fn spark_cells(samples: usize, width: usize) -> (r: (usize, usize))
    ensures
        r.0 + r.1 == width,
        r.1 == (if width == 0 {
            0
        } else if samples == 0 {
            1
        } else if samples < width {
            samples
        } else {
            width
        }),
{
    if width == 0 {
        return (0, 0);
    }
    let want: usize = if samples == 0 {
        1
    } else {
        samples
    };
    let drawn: usize = if want < width {
        want
    } else {
        width
    };
    (width - drawn, drawn)
}

/// A name and an amount in `width` cells: the name is cut rather than the amount,
/// which is why the row is there.
pub open spec fn ranked(l: LineView, name: Seq<char>, amount: nat, width: int) -> LineView {
    let money = fine_usd_text(amount);
    let room = if width > money.len() + 1 {
        width - money.len() - 1
    } else {
        0
    };
    l.with(left_in(cut(name, room), room), Ink::Dim).with(" "@, Ink::Plain).with(money, Ink::Mid)
}

/// Put a name and an amount behind a line, in `width` cells.
pub fn ranked_row(l: &mut Line, name: &str, amount: u128, width: usize)
    requires
        amount <= MOST,
    ensures
        final(l)@ == ranked(old(l)@, name@, amount as nat, width as int),
{
    let money = adaptive_usd(amount);
    let taken: usize = count(money.as_str());
    let room: usize = if taken < width {
        width - taken - 1
    } else {
        0
    };
    let shown = truncate(name, room);
    l.put(pad_right(shown.as_str(), room).as_str(), Ink::Dim);
    l.put(" ", Ink::Plain);
    l.put(money.as_str(), Ink::Mid);
}

/// A ranked row is as wide as it was asked to be, where its amount fits, and its
/// amount is whole.
pub proof fn a_ranked_row_keeps_its_amount(name: Seq<char>, amount: nat, width: int)
    requires
        fine_usd_text(amount).len() + 1 <= width,
    ensures
        ({
            let l = ranked(blank(), name, amount, width);
            &&& l.spans.len() == 3
            &&& l.spans[0].text.len() + l.spans[1].text.len() + l.spans[2].text.len() == width
            &&& l.spans[2].text == fine_usd_text(amount)
        }),
{
    reveal_strlit(" ");
}

/// A row of the spend: what it is, how much, and its chart.
pub open spec fn spend_line(name: Seq<char>, amount: nat, chart: LineView) -> LineView {
    blank().with(left_in(name, 11), Ink::Label).with_bold(right_in(fine_usd_text(amount), 12) + " "@, Ink::Mid).then_line(
        chart,
    )
}

fn spend_row(name: &str, amount: u64, chart: Line) -> (r: Line)
    ensures
        r@ == spend_line(name@, amount as nat, chart@),
{
    let mut chart = chart;
    let mut l = Line::new();
    l.put(pad_right(name, 11).as_str(), Ink::Label);
    let mut s = pad_left(adaptive_usd(amount as u128).as_str(), 12);
    s.append(" ");
    l.put_bold(s.as_str(), Ink::Mid);
    l.append(&mut chart);
    l
}

/// The rows of the spend. The last has the month's average a day where the others
/// have a chart: a running total only climbs, and a chart of it says nothing.
pub open spec fn spend_lines(
    stats: Stats,
    day: u32,
    live: LineView,
    today: LineView,
    month: LineView,
) -> Seq<LineView> {
    seq![
        spend_line("Live rate"@, stats.spend_per_min as nat, live),
        spend_line("Today"@, stats.spend_today as nat, today),
        spend_line("This month"@, stats.spend_calendar_month as nat, month),
        spend_line("All time"@, stats.spend_total as nat, blank()).with(
            fine_usd_text((stats.spend_calendar_month as int / day as int) as nat) + "/day this month"@,
            Ink::Dim,
        ),
    ]
}

/// What is spent: the rate, today, this month and ever. `day` is the day of the
/// month, and the charts are drawn.
pub fn spending(stats: &Stats, day: u32, live: Line, today: Line, month: Line) -> (r: Text)
    requires
        day > 0,
    ensures
        r@ == spend_lines(*stats, day, live@, today@, month@),
{
    let ghost want = spend_lines(*stats, day, live@, today@, month@);
    let mut t = Text::new();
    t.push(spend_row("Live rate", stats.spend_per_min, live));
    t.push(spend_row("Today", stats.spend_today, today));
    t.push(spend_row("This month", stats.spend_calendar_month, month));
    let mut last = spend_row("All time", stats.spend_total, Line::new());
    let each: u64 = stats.spend_calendar_month / day as u64;
    let mut s = adaptive_usd(each as u128);
    s.append("/day this month");
    last.put(s.as_str(), Ink::Dim);
    t.push(last);
    assert(t@ =~= want);
    t
}

/// What the entries from `i` on spent.
pub open spec fn spent_from(top: Seq<(String, u64)>, i: int) -> nat
    decreases top.len() - i,
{
    if i < 0 || i >= top.len() {
        0
    } else {
        top[i].1 as nat + spent_from(top, i + 1)
    }
}

fn spent_behind(top: &Vec<(String, u64)>, i: usize) -> (r: u128)
    requires
        i <= top@.len(),
    ensures
        r == capped(spent_from(top@, i as int) as int),
        r <= MOST,
{
    let mut sum: u128 = 0;
    let mut j: usize = top.len();
    while j > i
        invariant
            i <= j <= top@.len(),
            sum == capped(spent_from(top@, j as int) as int),
            sum <= MOST,
        decreases j,
    {
        j -= 1;
        sum = capped_sum(sum, top[j].1 as u128);
    }
    sum
}

/// What cell `i` of `shown` says: an entry, or in the last how many were left out
/// and what they come to.
pub open spec fn cell_name(top: Seq<(String, u64)>, shown: int, i: int) -> Seq<char> {
    if top.len() > shown && i + 1 == shown {
        "+"@ + dec((top.len() - shown + 1) as nat) + " more"@
    } else {
        top[i].0@
    }
}

/// What cell `i` of `shown` comes to.
pub open spec fn cell_amount(top: Seq<(String, u64)>, shown: int, i: int) -> nat {
    if top.len() > shown && i + 1 == shown {
        spent_from(top, i)
    } else {
        top[i].1 as nat
    }
}

/// What the cells from `i` on come to.
pub open spec fn cells_from(top: Seq<(String, u64)>, shown: int, i: int) -> nat
    decreases shown - i,
{
    if i < 0 || i >= shown {
        0
    } else {
        cell_amount(top, shown, i) + cells_from(top, shown, i + 1)
    }
}

/// What a ranking shows comes to what was spent, however few of its entries there
/// was room for: one you cannot tell is partial is a wrong total.
pub proof fn a_ranking_leaves_nothing_out(top: Seq<(String, u64)>, shown: int, i: int)
    requires
        0 <= i < shown <= top.len(),
    ensures
        cells_from(top, shown, i) == spent_from(top, i),
    decreases shown - i,
{
    if i + 1 < shown {
        a_ranking_leaves_nothing_out(top, shown, i + 1);
    } else {
        assert(cells_from(top, shown, i + 1) == 0);
        assert(top.len() == shown ==> spent_from(top, i + 1) == 0);
    }
}

/// How many cells stand side by side in a breakdown `width` wide: near the width
/// a cell would like rather than as many as fit, since a name far from its amount
/// is hard to read.
pub open spec fn cells_across(width: int) -> int {
    let grid = if width > 10 {
        width - 10
    } else {
        0
    };
    let n = (grid + 13) / 27;
    if n < 1 {
        1
    } else {
        n
    }
}

/// A row of the breakdown with the cells of its first `n` columns: read down each
/// column, and then across.
pub open spec fn grid_line(top: Seq<(String, u64)>, shown: int, row: int, cell: int, n: int) -> LineView
    decreases n,
{
    if n <= 0 {
        blank().with(
            if row == 0 {
                left_in("Top today"@, 10)
            } else {
                times(' ', 10)
            },
            Ink::Label,
        )
    } else {
        let before = grid_line(top, shown, row, cell, n - 1);
        let i = (n - 1) * ROWS + row;
        if i >= shown {
            before
        } else {
            ranked(before, cell_name(top, shown, i), capped(cell_amount(top, shown, i) as int) as nat, cell).with(
                "  "@,
                Ink::Plain,
            )
        }
    }
}

/// The breakdown, `width` wide.
pub open spec fn breakdown_lines(top: Seq<(String, u64)>, width: int) -> Seq<LineView> {
    if top.len() == 0 {
        seq![blank().with(left_in("Top today"@, 10), Ink::Label).with("nothing spent yet today"@, Ink::Dim)]
    } else {
        let across = cells_across(width);
        let shown = if across * ROWS < top.len() {
            across * ROWS
        } else {
            top.len() as int
        };
        let grid = if width > 10 {
            width - 10
        } else {
            0
        };
        let cell = if grid / across > 2 {
            grid / across - 2
        } else {
            0
        };
        Seq::new(ROWS as nat, |r: int| grid_line(top, shown, r, cell, across))
    }
}

proof fn a_row_has_its_cells(top: Seq<(String, u64)>, shown: int, row: int, cell: int, n: int, c: int)
    requires
        0 <= row < ROWS,
        0 <= c < n,
        c * ROWS + row < shown <= top.len(),
    ensures
        ({
            let spans = grid_line(top, shown, row, cell, n).spans;
            let own = ranked(
                blank(),
                cell_name(top, shown, c * ROWS + row),
                capped(cell_amount(top, shown, c * ROWS + row) as int) as nat,
                cell,
            ).spans;
            &&& spans.len() >= 1 + 4 * (c + 1)
            &&& spans[1 + 4 * c] == own[0]
            &&& spans[3 + 4 * c] == own[2]
        }),
    decreases n,
{
    let i = (n - 1) * ROWS + row;
    if i < shown {
        full_row(top, shown, row, cell, n - 1);
    }
    if c < n - 1 {
        a_row_has_its_cells(top, shown, row, cell, n - 1, c);
    }
}

proof fn full_row(top: Seq<(String, u64)>, shown: int, row: int, cell: int, n: int)
    requires
        0 <= row < ROWS,
        0 <= n,
        n * ROWS + row < shown,
    ensures
        grid_line(top, shown, row, cell, n).spans.len() == 1 + 4 * n,
    decreases n,
{
    if n > 0 {
        full_row(top, shown, row, cell, n - 1);
    }
}

/// A name in `room` cells.
pub open spec fn said_in(name: Seq<char>, room: int) -> Seq<char> {
    left_in(cut(name, room), room)
}

/// Every entry of the ranking that is shown stands with its own name beside its own
/// amount, one under the other and then in the next column; where not all are shown,
/// the last cell says how many are left and what those come to.
pub proof fn a_project_stands_beside_its_own_amount(top: Seq<(String, u64)>, width: int, i: int)
    requires
        0 <= width <= u16::MAX,
        0 <= i < top.len(),
        i < cells_across(width) * ROWS,
    ensures
        ({
            let lines = breakdown_lines(top, width);
            let spans = lines[i % 4].spans;
            let (name, amount) = (spans[1 + 4 * (i / 4)].text, spans[3 + 4 * (i / 4)].text);
            let left_out = top.len() > cells_across(width) * ROWS && i + 1 == cells_across(width) * ROWS;
            let money = if left_out {
                fine_usd_text(capped(spent_from(top, i) as int) as nat)
            } else {
                fine_usd_text(top[i].1 as nat)
            };
            let said = if left_out {
                "+"@ + dec((top.len() - i) as nat) + " more"@
            } else {
                top[i].0@
            };
            &&& lines.len() == 4
            &&& amount == money
            &&& name == said_in(said, name.len() as int)
            &&& width > 10 ==> name.len() + amount.len() + 3 >= (width - 10) / cells_across(width)
        }),
{
    let across = cells_across(width);
    let shown = if across * ROWS < top.len() {
        across * ROWS
    } else {
        top.len() as int
    };
    let grid = if width > 10 {
        width - 10
    } else {
        0
    };
    let cell = if grid / across > 2 {
        grid / across - 2
    } else {
        0
    };
    let (c, row) = (i / 4, i % 4);
    assert(c * 4 + row == i);
    assert(c < across);
    a_row_has_its_cells(top, shown, row, cell, across, c);
    let name = cell_name(top, shown, i);
    let money = fine_usd_text(capped(cell_amount(top, shown, i) as int) as nat);
    let room = if cell > money.len() + 1 {
        cell - money.len() - 1
    } else {
        0
    };
    assert(breakdown_lines(top, width)[row] == grid_line(top, shown, row, cell, across));
    assert(breakdown_lines(top, width)[row].spans[1 + 4 * c].text == said_in(name, room));
    assert(said_in(name, room).len() == room);
    assert(breakdown_lines(top, width)[row].spans[3 + 4 * c].text == money);
    let left_out = top.len() > across * ROWS && i + 1 == across * ROWS;
    assert(name == if left_out {
        "+"@ + dec((top.len() - i) as nat) + " more"@
    } else {
        top[i].0@
    });
    assert(breakdown_lines(top, width).len() == 4);
    assert(cell_amount(top, shown, i) == if left_out { spent_from(top, i) } else { top[i].1 as nat });
}

/// What entries spent is counted once each: what two lists spent is what the one and
/// the other did, and an entry spent its own amount.
pub proof fn every_entry_counts_once(a: Seq<(String, u64)>, b: Seq<(String, u64)>, e: (String, u64))
    ensures
        spent_from(a + b, 0) == spent_from(a, 0) + spent_from(b, 0),
        spent_from(seq![e], 0) == e.1,
        spent_from(Seq::empty(), 0) == 0,
{
    both_count(a, b, 0);
    assert(spent_from(seq![e], 1) == 0);
}

proof fn both_count(a: Seq<(String, u64)>, b: Seq<(String, u64)>, i: int)
    requires
        0 <= i <= a.len(),
    ensures
        spent_from(a + b, i) == spent_from(a, i) + spent_from(b, 0),
    decreases a.len() - i,
{
    if i < a.len() {
        both_count(a, b, i + 1);
    } else {
        behind_counts(a, b, 0);
    }
}

proof fn behind_counts(a: Seq<(String, u64)>, b: Seq<(String, u64)>, j: int)
    requires
        0 <= j <= b.len(),
    ensures
        spent_from(a + b, a.len() + j) == spent_from(b, j),
    decreases b.len() - j,
{
    if j < b.len() {
        behind_counts(a, b, j + 1);
    }
}

/// Where today's money went, by project: `width` cells wide, as many projects as
/// there is room for.
pub fn breakdown(top: &Vec<(String, u64)>, width: u16) -> (r: Text)
    ensures
        r@ == breakdown_lines(top@, width as int),
{
    let mut t = Text::new();
    let n: usize = top.len();
    if n == 0 {
        let mut l = Line::new();
        l.put(pad_right("Top today", 10).as_str(), Ink::Label);
        l.put("nothing spent yet today", Ink::Dim);
        t.push(l);
        assert(t@ =~= breakdown_lines(top@, width as int));
        return t;
    }
    let grid: usize = (width as usize).saturating_sub(10);
    let fit: usize = (grid + 13) / 27;
    let across: usize = if fit < 1 {
        1
    } else {
        fit
    };
    let each: usize = grid / across;
    let cell: usize = each.saturating_sub(2);
    let shown: usize = if across * ROWS < n {
        across * ROWS
    } else {
        n
    };
    assert(across == cells_across(width as int));
    let mut row: usize = 0;
    while row < ROWS
        invariant
            row <= ROWS,
            n == top@.len(),
            across <= 0x1_0000,
            shown <= n,
            t@.len() == row,
            forall|k: int|
                0 <= k < row ==> #[trigger] t@[k] == grid_line(top@, shown as int, k, cell as int, across as int),
        decreases ROWS - row,
    {
        let l = grid_row(top, shown, row, cell, across);
        t.push(l);
        row += 1;
    }
    assert(t@ =~= breakdown_lines(top@, width as int));
    t
}

fn grid_row(top: &Vec<(String, u64)>, shown: usize, row: usize, cell: usize, across: usize) -> (r: Line)
    requires
        shown <= top@.len(),
        row < ROWS,
        across <= 0x1_0000,
    ensures
        r@ == grid_line(top@, shown as int, row as int, cell as int, across as int),
{
    let n: usize = top.len();
    let mut l = Line::new();
    if row == 0 {
        l.put(pad_right("Top today", 10).as_str(), Ink::Label);
    } else {
        l.put(repeat(' ', 10).as_str(), Ink::Label);
    }
    let mut c: usize = 0;
    while c < across
        invariant
            c <= across <= 0x1_0000,
            row < ROWS,
            n == top@.len(),
            shown <= n,
            l@ == grid_line(top@, shown as int, row as int, cell as int, c as int),
        decreases across - c,
    {
        let i: usize = c * ROWS + row;
        if i < shown {
            if n > shown && i + 1 == shown {
                let mut name = cat("+", decimal((n - shown) as u128 + 1).as_str());
                name.append(" more");
                ranked_row(&mut l, name.as_str(), spent_behind(top, i), cell);
            } else {
                ranked_row(&mut l, top[i].0.as_str(), top[i].1 as u128, cell);
            }
            l.put("  ", Ink::Plain);
        }
        c += 1;
    }
    l
}

/// The load of the agents.
pub open spec fn cpu_text(tenths: nat) -> Seq<char> {
    fixed(tenths, 10, 10, 1) + "%"@
}

fn cpu_words(tenths: u64) -> (r: String)
    ensures
        r@ == cpu_text(tenths as nat),
{
    let mut s = with_places(tenths as u128, 10, 10, 1);
    s.append("%");
    s
}

/// How wide the chart of the load is in a column of `width` cells.
pub fn cpu_chart_width(stats: &Stats, width: usize) -> (r: usize)
    ensures
        ({
            let body = if width > 10 {
                width - 10
            } else {
                0
            };
            let left = body - cpu_text(stats.total_cpu as nat).len() - 2;
            r == (if left < 0 {
                0
            } else if left > 20 {
                20
            } else {
                left
            })
        }),
{
    let taken: usize = count(cpu_words(stats.total_cpu).as_str());
    let body: usize = width.saturating_sub(10);
    if taken >= body {
        return 0;
    }
    let left: usize = (body - taken).saturating_sub(2);
    if left > 20 {
        20
    } else {
        left
    }
}

/// The shares of the first `n` models of what was spent today. The mix that is
/// costing money is the one worth naming.
pub open spec fn model_spans(models: Seq<(String, u64)>, n: int) -> LineView
    decreases n,
{
    if n <= 0 {
        blank().with(left_in("Models"@, 10), Ink::Label)
    } else {
        let before = model_spans(models, n - 1);
        let before = if n > 1 {
            before.with(" · "@, Ink::Dim)
        } else {
            before
        };
        before.with(models[n - 1].0@, Ink::Value).with(
            " "@ + dec(nearest_even(models[n - 1].1 as nat, capped(spent_from(models, 0) as int) as nat, 100)) + "%"@,
            Ink::Dim,
        )
    }
}

/// The models of today.
pub open spec fn models_line(models: Seq<(String, u64)>) -> LineView {
    if spent_from(models, 0) == 0 {
        model_spans(models, 0).with("idle today"@, Ink::Dim)
    } else {
        model_spans(
            models,
            if models.len() < 3 {
                models.len() as int
            } else {
                3
            },
        )
    }
}

fn models_row(models: &Vec<(String, u64)>) -> (r: Line)
    ensures
        r@ == models_line(models@),
{
    let today: u128 = spent_behind(models, 0);
    let mut l = Line::new();
    l.put(pad_right("Models", 10).as_str(), Ink::Label);
    if today == 0 {
        l.put("idle today", Ink::Dim);
        return l;
    }
    let n: usize = if models.len() < 3 {
        models.len()
    } else {
        3
    };
    let mut i: usize = 0;
    while i < n
        invariant
            i <= n <= models@.len(),
            today == capped(spent_from(models@, 0) as int),
            today > 0,
            today <= MOST,
            l@ == model_spans(models@, i as int),
        decreases n - i,
    {
        if i > 0 {
            l.put(" · ", Ink::Dim);
        }
        l.put(models[i].0.as_str(), Ink::Value);
        let mut s = cat(" ", decimal(to_nearest_even(models[i].1 as u128, today, 100)).as_str());
        s.append("%");
        l.put(s.as_str(), Ink::Dim);
        i += 1;
    }
    l
}

/// The machine's figures.
pub open spec fn machine_lines(stats: Stats, chart: LineView) -> Seq<LineView> {
    seq![
        models_line(stats.models_today@),
        blank().with(left_in("Sessions"@, 10), Ink::Label).with(dec(stats.total as nat), Ink::Value).with(
            " · "@,
            Ink::Dim,
        ).with(dec(stats.running as nat) + " live"@, Ink::Low).with(
            " · "@ + dec(stats.active_24h as nat) + " in 24h"@,
            Ink::Dim,
        ),
        blank().with(left_in("Agent CPU"@, 10), Ink::Label).with(
            right_in(cpu_text(stats.total_cpu as nat), 6) + " "@,
            Ink::Value,
        ).then_line(chart),
        blank().with(left_in("Agent mem"@, 10), Ink::Label).with(
            dec(nearest_even(stats.total_memory as nat, 1_048_576, 1)) + " MB"@,
            Ink::Value,
        ).with(
            " · "@ + tokens_text(stats.total_input as nat) + " in / "@ + tokens_text(stats.total_output as nat)
                + " out"@,
            Ink::Dim,
        ),
    ]
}

/// What the machine is doing. `chart` is the load's, drawn.
pub fn machine(stats: &Stats, chart: Line) -> (r: Text)
    ensures
        r@ == machine_lines(*stats, chart@),
{
    let ghost want = machine_lines(*stats, chart@);
    let mut chart = chart;
    let mut t = Text::new();
    t.push(models_row(&stats.models_today));
    let mut l = Line::new();
    l.put(pad_right("Sessions", 10).as_str(), Ink::Label);
    l.put(decimal(stats.total as u128).as_str(), Ink::Value);
    l.put(" · ", Ink::Dim);
    l.put(cat(decimal(stats.running as u128).as_str(), " live").as_str(), Ink::Low);
    let mut s = cat(" · ", decimal(stats.active_24h as u128).as_str());
    s.append(" in 24h");
    l.put(s.as_str(), Ink::Dim);
    t.push(l);
    let mut l = Line::new();
    l.put(pad_right("Agent CPU", 10).as_str(), Ink::Label);
    let mut s = pad_left(cpu_words(stats.total_cpu).as_str(), 6);
    s.append(" ");
    l.put(s.as_str(), Ink::Value);
    l.append(&mut chart);
    t.push(l);
    let mut l = Line::new();
    l.put(pad_right("Agent mem", 10).as_str(), Ink::Label);
    let mb: u128 = to_nearest_even(stats.total_memory as u128, 1_048_576, 1);
    l.put(cat(decimal(mb).as_str(), " MB").as_str(), Ink::Value);
    let mut s = cat(" · ", compact_tokens(stats.total_input as u128).as_str());
    s.append(" in / ");
    s.append(compact_tokens(stats.total_output as u128).as_str());
    s.append(" out");
    l.put(s.as_str(), Ink::Dim);
    t.push(l);
    assert(t@ =~= want);
    t
}

/// Each row of the spend has its own amount under its own name, and the average is of
/// the month's amount over its days so far.
pub proof fn a_row_has_its_own_amount(
    stats: Stats,
    day: u32,
    live: LineView,
    today: LineView,
    month: LineView,
    each: nat,
)
    requires
        day > 0,
        each * day <= stats.spend_calendar_month < (each + 1) * day,
    ensures
        ({
            let t = spend_lines(stats, day, live, today, month);
            &&& t.len() == 4
            &&& t[0].spans[0].text == left_in("Live rate"@, 11)
            &&& t[0].spans[1].text == right_in(fine_usd_text(stats.spend_per_min as nat), 12) + " "@
            &&& t[0].spans.skip(2) == live.spans
            &&& t[1].spans[0].text == left_in("Today"@, 11)
            &&& t[1].spans[1].text == right_in(fine_usd_text(stats.spend_today as nat), 12) + " "@
            &&& t[1].spans.skip(2) == today.spans
            &&& t[2].spans[0].text == left_in("This month"@, 11)
            &&& t[2].spans[1].text == right_in(fine_usd_text(stats.spend_calendar_month as nat), 12) + " "@
            &&& t[2].spans.skip(2) == month.spans
            &&& t[3].spans[0].text == left_in("All time"@, 11)
            &&& t[3].spans[1].text == right_in(fine_usd_text(stats.spend_total as nat), 12) + " "@
            &&& t[3].spans[2].text == fine_usd_text(each) + "/day this month"@
        }),
{
    let (m, d) = (stats.spend_calendar_month as int, day as int);
    assert(0 <= m - each * d < d) by (nonlinear_arith)
        requires
            each * d <= m,
            m < (each + 1) * d,
    ;
    assert(d * each == each * d) by (nonlinear_arith);
    vstd::arithmetic::div_mod::lemma_fundamental_div_mod_converse(m, d, each as int, m - each * d);
    let t = spend_lines(stats, day, live, today, month);
    assert(t[0].spans.skip(2) =~= live.spans);
    assert(t[1].spans.skip(2) =~= today.spans);
    assert(t[2].spans.skip(2) =~= month.spans);
}

proof fn a_model_keeps_its_place(models: Seq<(String, u64)>, n: int, i: int)
    requires
        0 <= i < n <= models.len(),
    ensures
        ({
            let spans = model_spans(models, n).spans;
            &&& spans.len() == 3 * n
            &&& spans[1 + 3 * i].text == models[i].0@
            &&& spans[2 + 3 * i].text == " "@ + dec(
                nearest_even(models[i].1 as nat, capped(spent_from(models, 0) as int) as nat, 100),
            ) + "%"@
        }),
    decreases n,
{
    assert(model_spans(models, 0).spans.len() == 1);
    if n > 1 {
        a_model_keeps_its_place(models, n - 1, if i < n - 1 {
            i
        } else {
            0
        });
    }
}

/// The first three models of today stand with their own names and their own shares of
/// what was spent on all of them, to the nearest percent.
pub proof fn a_model_has_its_own_share(models: Seq<(String, u64)>, i: int)
    requires
        0 <= i < models.len(),
        i < 3,
        0 < spent_from(models, 0) < 0x400_0000_0000,
        models[i].1 <= spent_from(models, 0),
    ensures
        ({
            let spans = models_line(models).spans;
            let pct = crate::text::reading(spans[2 + 3 * i].text);
            let all = spent_from(models, 0);
            &&& spans[1 + 3 * i].text == models[i].0@
            &&& spans[2 + 3 * i].text.last() == '%'
            &&& 2 * (pct * all - 100 * models[i].1) <= all
            &&& 2 * (100 * models[i].1 - pct * all) <= all
        }),
{
    let n = if models.len() < 3 {
        models.len() as int
    } else {
        3
    };
    a_model_keeps_its_place(models, n, i);
    let all = spent_from(models, 0);
    let pct = nearest_even(models[i].1 as nat, all, 100);
    reveal_strlit(" ");
    reveal_strlit("%");
    crate::text::a_number_reads_back(pct);
    crate::text::marks_before_are_not_read(" "@, dec(pct));
    crate::text::only_digits_are_read(" "@ + dec(pct), "%"@);
    crate::figures::a_share_is_near(models[i].1 as nat, all, 100);
}

/// Where nothing was spent today the models are said to be idle.
pub proof fn nothing_spent_is_idle(models: Seq<(String, u64)>)
    requires
        forall|i: int| 0 <= i < models.len() ==> (#[trigger] models[i]).1 == 0,
    ensures
        models_line(models).spans[1].text == "idle today"@,
{
    nothing_from(models, 0);
}

proof fn nothing_from(models: Seq<(String, u64)>, i: int)
    requires
        forall|i: int| 0 <= i < models.len() ==> (#[trigger] models[i]).1 == 0,
    ensures
        spent_from(models, i) == 0,
    decreases models.len() - i,
{
    if 0 <= i < models.len() {
        nothing_from(models, i + 1);
        assert(models[i].1 == 0);
    }
}

/// The machine's figures stand each behind its own name.
pub proof fn a_figure_is_behind_its_name(stats: Stats, chart: LineView)
    requires
        stats.total_cpu < 0x1_0000_0000_0000,
    ensures
        ({
            let t = machine_lines(stats, chart);
            let load = crate::text::reading(t[2].spans[1].text);
            &&& t[0] == models_line(stats.models_today@)
            &&& crate::text::reading(t[1].spans[1].text) == stats.total
            &&& t[1].spans[3].text == dec(stats.running as nat) + " live"@
            &&& t[1].spans[4].text == " · "@ + dec(stats.active_24h as nat) + " in 24h"@
            &&& load == stats.total_cpu
            &&& t[3].spans[2].text == " · "@ + tokens_text(stats.total_input as nat) + " in / "@ + tokens_text(
                stats.total_output as nat,
            ) + " out"@
        }),
{
    let t = machine_lines(stats, chart);
    crate::text::a_number_reads_back(stats.total as nat);
    reveal_with_fuel(crate::figures::tens, 2);
    assert(crate::figures::tens(1) == 10);
    crate::figures::a_figure_reads_near(stats.total_cpu as nat, 10, 1);
    reveal_strlit("%");
    reveal_strlit(" ");
    let n = fixed(stats.total_cpu as nat, 10, 10, 1);
    crate::text::only_digits_are_read(n, "%"@);
    let shown = right_in(cpu_text(stats.total_cpu as nat), 6);
    let pad = (shown.len() - cpu_text(stats.total_cpu as nat).len()) as int;
    assert(shown =~= times(' ', pad) + cpu_text(stats.total_cpu as nat));
    crate::text::marks_before_are_not_read(times(' ', pad), cpu_text(stats.total_cpu as nat));
    crate::text::only_digits_are_read(shown, " "@);
}

/// What a ranking shows does not rise from one cell to the next where what it ranks
/// does not.
pub proof fn amounts_do_not_rise(top: Seq<(String, u64)>, width: int, i: int, j: int)
    requires
        0 <= width <= u16::MAX,
        0 <= i < j < top.len(),
        j < cells_across(width) * ROWS,
        top.len() > cells_across(width) * ROWS ==> j + 1 < cells_across(width) * ROWS,
        forall|a: int, b: int| 0 <= a < b < top.len() ==> (#[trigger] top[a]).1 >= (#[trigger] top[b]).1,
    ensures
        exists|more: nat, less: nat|
            {
                &&& more >= less
                &&& breakdown_lines(top, width)[i % 4].spans[3 + 4 * (i / 4)].text == #[trigger] fine_usd_text(more)
                &&& breakdown_lines(top, width)[j % 4].spans[3 + 4 * (j / 4)].text == #[trigger] fine_usd_text(less)
            },
{
    a_project_stands_beside_its_own_amount(top, width, i);
    a_project_stands_beside_its_own_amount(top, width, j);
    let (more, less) = (top[i].1 as nat, top[j].1 as nat);
    assert(breakdown_lines(top, width)[i % 4].spans[3 + 4 * (i / 4)].text == fine_usd_text(more));
    assert(breakdown_lines(top, width)[j % 4].spans[3 + 4 * (j / 4)].text == fine_usd_text(less));
}

/// In a wide panel the charts and the machine have their full width and the breakdown
/// has the rest; in a narrow one the breakdown goes first, then the machine, and the
/// charts shrink last.
pub proof fn the_breakdown_goes_first(width: int)
    requires
        26 <= width <= u16::MAX,
    ensures
        width >= 129 ==> columns_in(width).spark == 31 && columns_in(width).right == 42 && columns_in(width).mid
            + 99 == width,
        width < 129 ==> columns_in(width).mid == 0,
        77 <= width < 129 ==> columns_in(width).right + 57 == width,
        width < 77 ==> columns_in(width).right == 0,
        width < 57 ==> columns_in(width).spark + 26 == width,
        columns_in(width).left == 26 + columns_in(width).spark,
{
}

/// The cells of a breakdown are as near as they can be to the width a cell would like.
pub proof fn cells_are_near_the_width_they_would_like(width: int)
    requires
        width >= 24,
    ensures
        ({
            let n = cells_across(width);
            &&& n >= 1
            &&& -13 <= (width - 10) - 27 * n <= 13
        }),
{
}

} // verus!
