//! The tab bar: the dashboard first, then a tab per set of terminals, and the
//! button for another.

use vstd::prelude::*;

use crate::app::App;
use crate::geometry::Rect;
use crate::styled::{blank, Ink, Line, LineView};
use crate::tabs::Tab;
use crate::text::{cat, chars_of, count, dec, decimal, string_between};

verus! {

/// What a tab wants of whoever looks at the screen.
#[derive(Debug, Clone, Copy, PartialEq, Eq, Structural)]
pub enum Attention {
    /// An agent has asked something.
    NeedsInput,
    /// An agent has nothing to do.
    Idle,
}

/// The bar, and where it can be clicked.
pub struct Bar {
    pub line: Line,
    /// The first column, the one behind the last, and the tab.
    pub spans: Vec<(u16, u16, usize)>,
    /// The columns of the new-tab button.
    pub button: Option<(u16, u16)>,
}

/// `text`, cut to `max` columns with an ellipsis when it does not fit.
pub open spec fn elided(text: Seq<char>, max: int) -> Seq<char> {
    if text.len() <= max {
        text
    } else {
        text.take(
            if max < 1 {
                0
            } else {
                max - 1
            },
        ) + "…"@
    }
}

/// `text`, cut to `max` columns with an ellipsis when it does not fit.
pub fn elide(text: &str, max: usize) -> (r: String)
    ensures
        r@ == elided(text@, max as int),
{
    let v = chars_of(text);
    let n: usize = v.len();
    if n <= max {
        return text.to_owned();
    }
    let keep: usize = max.saturating_sub(1);
    let mut s = string_between(&v, 0, keep);
    assert(s@ =~= text@.take(keep as int));
    s.append("…");
    s
}

/// What is elided takes up the columns it was given, or the one of the ellipsis.
pub proof fn an_elided_text_fits(text: Seq<char>, max: int)
    requires
        0 <= max,
    ensures
        elided(text, max).len() <= (if max < 1 {
            1
        } else {
            max
        }),
{
    reveal_strlit("…");
}

/// What the tab at place `i` of the bar is called.
pub open spec fn bar_title(tabs: Seq<Tab>, i: int) -> Seq<char> {
    dec((i + 1) as nat) + ":"@ + (if i == 0 {
        "Dashboard"@
    } else {
        tabs[i - 1].name()
    })
}

/// The columns the first `n` tabs would take up whole.
pub open spec fn natural_width(tabs: Seq<Tab>, n: int) -> int
    decreases n,
{
    if n <= 0 {
        0
    } else {
        natural_width(tabs, n - 1) + bar_title(tabs, n - 1).len() + 2
    }
}

/// The new-tab button. Which key it names depends on where the keyboard is: inside
/// a pane it belongs to the agent, and only the other form gets through.
pub open spec fn button_text(tab: usize) -> Seq<char> {
    if tab == 0 {
        " + Tab (t) "@
    } else {
        " + Tab (Alt+n) "@
    }
}

/// The columns the labels get: the button's room is kept before theirs.
pub open spec fn label_room(width: int, tab: usize) -> int {
    let left = width - button_text(tab).len();
    if left < 0 {
        0
    } else {
        left
    }
}

/// The columns a title may take up: all of them while every label fits, and past
/// that an equal share.
pub open spec fn title_cap(tabs: Seq<Tab>, room: int) -> int {
    let n = tabs.len() as int + 1;
    if natural_width(tabs, n) <= room {
        room
    } else {
        let share = room / n - 2;
        if share < 3 {
            3
        } else {
            share
        }
    }
}

/// The label of the tab at place `i`.
pub open spec fn bar_label(tabs: Seq<Tab>, cap: int, i: int) -> Seq<char> {
    " "@ + elided(bar_title(tabs, i), cap) + " "@
}

/// The columns the labels of the first `n` tabs take up.
pub open spec fn labels_width(tabs: Seq<Tab>, cap: int, n: int) -> int
    decreases n,
{
    if n <= 0 {
        0
    } else {
        labels_width(tabs, cap, n - 1) + bar_label(tabs, cap, n - 1).len()
    }
}

/// A column, as far as columns go.
pub open spec fn column(x: int) -> u16 {
    if x > u16::MAX {
        u16::MAX
    } else {
        x as u16
    }
}

/// The label of a tab: what wants something outranks what is on show, since the
/// colour is there to be seen while another tab is being read. A question blinks,
/// and an agent with nothing to do is green and still.
pub open spec fn with_label(
    l: LineView,
    label: Seq<char>,
    attention: Option<Attention>,
    on: bool,
    shown: bool,
) -> LineView {
    match attention {
        Some(Attention::NeedsInput) => if on {
            l.with(label, Ink::Alarm)
        } else {
            l.with_bold(label, Ink::Mid)
        },
        Some(Attention::Idle) => l.with_bold(label, Ink::Low),
        None => l.with(
            label,
            if shown {
                Ink::Selected
            } else {
                Ink::Dim
            },
        ),
    }
}

/// What the tab at place `i` wants.
pub open spec fn wanted(attention: Seq<Option<Attention>>, i: int) -> Option<Attention> {
    if 0 <= i < attention.len() {
        attention[i]
    } else {
        None
    }
}

/// The labels of the first `n` tabs.
pub open spec fn labels_line(
    tabs: Seq<Tab>,
    cap: int,
    attention: Seq<Option<Attention>>,
    on: bool,
    tab: usize,
    n: int,
) -> LineView
    decreases n,
{
    if n <= 0 {
        blank()
    } else {
        with_label(
            labels_line(tabs, cap, attention, on, tab, n - 1),
            bar_label(tabs, cap, n - 1),
            wanted(attention, n - 1),
            on,
            tab == n - 1,
        )
    }
}

/// Where the label of the tab at place `i` is.
pub open spec fn label_span(tabs: Seq<Tab>, cap: int, x: u16, i: int) -> (u16, u16, usize) {
    (column(x + labels_width(tabs, cap, i)), column(x + labels_width(tabs, cap, i + 1)), i as usize)
}

fn title_of(tabs: &Vec<Tab>, i: usize) -> (r: String)
    requires
        i <= tabs@.len(),
    ensures
        r@ == bar_title(tabs@, i as int),
{
    let mut s = decimal(i as u128 + 1);
    s.append(":");
    if i == 0 {
        s.append("Dashboard");
    } else {
        s.append(tabs[i - 1].title().as_str());
    }
    s
}

/// Whether the first `n` tabs fit whole, and the columns they take up where they
/// do.
fn fits_whole(tabs: &Vec<Tab>, room: usize) -> (r: bool)
    requires
        tabs@.len() < usize::MAX,
    ensures
        r == (natural_width(tabs@, tabs@.len() as int + 1) <= room),
{
    let mut sum: u128 = 0;
    let mut i: usize = 0;
    let n: usize = tabs.len();
    while i <= n
        invariant
            i <= n + 1,
            n == tabs@.len(),
            n < usize::MAX,
            sum == natural_width(tabs@, i as int),
            sum <= i * 0x1_0000_0000_0000_0001,
        decreases n + 1 - i,
    {
        let w: usize = count(title_of(tabs, i).as_str());
        assert(sum + w + 2 <= (i + 1) * 0x1_0000_0000_0000_0001 && sum + w + 2 <= u128::MAX) by (nonlinear_arith)
            requires
                sum <= i * 0x1_0000_0000_0000_0001,
                0 <= w <= 0xffff_ffff_ffff_ffff,
                0 <= i < 0xffff_ffff_ffff_ffff,
        ;
        sum = sum + w as u128 + 2;
        i += 1;
    }
    sum <= room as u128
}

/// Labels that are whole or get a share fit the room, as long as a share is worth
/// having.
proof fn labels_fit(tabs: Seq<Tab>, room: int, n: int)
    requires
        0 <= n <= tabs.len() + 1,
        0 <= room,
    ensures
        natural_width(tabs, tabs.len() as int + 1) <= room ==> labels_width(tabs, title_cap(tabs, room), n)
            == natural_width(tabs, n),
        natural_width(tabs, tabs.len() as int + 1) > room ==> labels_width(tabs, title_cap(tabs, room), n) <= n * (
        title_cap(tabs, room) + 2),
    decreases n,
{
    let cap = title_cap(tabs, room);
    reveal_strlit(" ");
    assert(0 * (cap + 2) == 0);
    if n > 0 {
        labels_fit(tabs, room, n - 1);
        an_elided_text_fits(bar_title(tabs, n - 1), cap);
        assert((n - 1) * (cap + 2) + (cap + 2) == n * (cap + 2)) by (nonlinear_arith);
        if natural_width(tabs, tabs.len() as int + 1) <= room {
            widths_grow(tabs, n, tabs.len() as int + 1);
            widths_grow(tabs, 0, n - 1);
        }
    }
}

proof fn widths_grow(tabs: Seq<Tab>, m: int, n: int)
    requires
        0 <= m <= n,
    ensures
        natural_width(tabs, m) <= natural_width(tabs, n),
    decreases n - m,
{
    if m < n {
        widths_grow(tabs, m, n - 1);
    }
}

/// A bar with room for five columns a tab never runs into its button, however long
/// the titles are.
pub proof fn a_crowded_bar_leaves_the_button(tabs: Seq<Tab>, width: int, tab: usize)
    requires
        button_text(tab).len() <= width,
        5 * (tabs.len() + 1) <= label_room(width, tab),
    ensures
        ({
            let room = label_room(width, tab);
            labels_width(tabs, title_cap(tabs, room), tabs.len() as int + 1) + button_text(tab).len() <= width
        }),
{
    let room = label_room(width, tab);
    let n = tabs.len() as int + 1;
    labels_fit(tabs, room, n);
    if natural_width(tabs, n) > room {
        assert(room / n >= 5 && n * (room / n) <= room) by (nonlinear_arith)
            requires
                n >= 1,
                5 * n <= room,
        ;
        assert(title_cap(tabs, room) + 2 == room / n);
    }
}

/// Every place a click finds a tab is where that tab's label begins or continues,
/// and the labels stand side by side.
pub proof fn labels_stand_side_by_side(tabs: Seq<Tab>, cap: int, x: u16, i: int)
    requires
        0 <= i < tabs.len(),
    ensures
        label_span(tabs, cap, x, i).1 == label_span(tabs, cap, x, i + 1).0,
        label_span(tabs, cap, x, 0).0 == x,
{
}

fn reach(x: u16, by: usize) -> (r: u16)
    ensures
        r == column(x + by),
{
    if by > (u16::MAX - x) as usize {
        u16::MAX
    } else {
        x + by as u16
    }
}

impl App {
    /// The bar in a row of the screen.
    ///
    /// `attention` is what each place of the bar wants, and `on` whether a blink
    /// is lit.
    pub fn workspace_bar(&self, area: Rect, attention: &Vec<Option<Attention>>, on: bool) -> (r: Bar)
        requires
            self.tabs@.len() < usize::MAX,
        ensures
            ({
                let n = self.tabs@.len() as int + 1;
                let room = label_room(area.width as int, self.tab);
                let cap = title_cap(self.tabs@, room);
                let end = area.x + labels_width(self.tabs@, cap, n);
                let labels = labels_line(self.tabs@, cap, attention@, on, self.tab, n);
                let button = button_text(self.tab);
                &&& r.spans@ == Seq::new(n as nat, |i: int| label_span(self.tabs@, cap, area.x, i))
                &&& if end + button.len() <= area.x + area.width {
                    &&& r.line@ == labels.with_bold(button, Ink::Accent)
                    &&& r.button == Some((column(end), column(end + button.len())))
                } else {
                    r.line@ == labels && r.button is None
                }
            }),
    {
        proof {
            reveal_strlit(" + Tab (t) ");
            reveal_strlit(" + Tab (Alt+n) ");
            reveal_strlit(" ");
            reveal_strlit("…");
        }
        let button = if self.tab == 0 {
            " + Tab (t) "
        } else {
            " + Tab (Alt+n) "
        };
        let taken: usize = if self.tab == 0 {
            11
        } else {
            15
        };
        let room: usize = (area.width as usize).saturating_sub(taken);
        let tabs = &self.tabs;
        let n: usize = tabs.len();
        let cap: usize = if fits_whole(tabs, room) {
            room
        } else {
            let share: usize = (room / (n + 1)).saturating_sub(2);
            if share < 3 {
                3
            } else {
                share
            }
        };
        assert(cap == title_cap(tabs@, room as int));
        assert(cap <= 0x1_0000);
        let mut line = Line::new();
        let mut spans: Vec<(u16, u16, usize)> = Vec::new();
        // As far as columns go: a tab behind the last of them is in none.
        let mut at: usize = 0;
        let mut i: usize = 0;
        while i <= n
            invariant
                i <= n + 1,
                n == tabs@.len(),
                n < usize::MAX,
                tabs == &self.tabs,
                cap <= 0x1_0000,
                at <= 0x1_0000,
                at == labels_width(tabs@, cap as int, i as int) || (at == 0x1_0000 && at <= labels_width(
                    tabs@,
                    cap as int,
                    i as int,
                )),
                line@ == labels_line(tabs@, cap as int, attention@, on, self.tab, i as int),
                spans@.len() == i,
                forall|k: int| 0 <= k < i ==> #[trigger] spans@[k] == label_span(tabs@, cap as int, area.x, k),
            decreases n + 1 - i,
        {
            let title = title_of(tabs, i);
            let mut label = cat(" ", elide(title.as_str(), cap).as_str());
            label.append(" ");
            let wants = if i < attention.len() {
                attention[i]
            } else {
                None
            };
            match wants {
                Some(Attention::NeedsInput) => {
                    if on {
                        line.put(label.as_str(), Ink::Alarm);
                    } else {
                        line.put_bold(label.as_str(), Ink::Mid);
                    }
                },
                Some(Attention::Idle) => {
                    line.put_bold(label.as_str(), Ink::Low);
                },
                None => {
                    let ink = if self.tab == i {
                        Ink::Selected
                    } else {
                        Ink::Dim
                    };
                    line.put(label.as_str(), ink);
                },
            }
            let w: usize = count(label.as_str());
            proof {
                reveal_strlit(" ");
                an_elided_text_fits(bar_title(tabs@, i as int), cap as int);
            }
            assert(w <= 0x1_0003);
            let end: usize = if at + w > 0x1_0000 {
                0x1_0000
            } else {
                at + w
            };
            spans.push((reach(area.x, at), reach(area.x, end), i));
            at = end;
            i += 1;
        }
        let ghost says = Seq::new((n + 1) as nat, |k: int| label_span(tabs@, cap as int, area.x, k));
        assert(spans@ =~= says);
        if at + taken <= area.width as usize {
            line.put_bold(button, Ink::Accent);
            let to: u16 = reach(area.x, at + taken);
            Bar { line, spans, button: Some((reach(area.x, at), to)) }
        } else {
            Bar { line, spans, button: None }
        }
    }
}

proof fn a_label_keeps_its_place(
    tabs: Seq<Tab>,
    cap: int,
    attention: Seq<Option<Attention>>,
    on: bool,
    tab: usize,
    n: int,
    i: int,
)
    requires
        0 <= i < n,
    ensures
        ({
            let spans = labels_line(tabs, cap, attention, on, tab, n).spans;
            let want = if i < attention.len() {
                attention[i]
            } else {
                None
            };
            &&& spans.len() == n
            &&& spans[i].text == bar_label(tabs, cap, i)
            &&& want == Some(Attention::NeedsInput) && on ==> spans[i].ink == Ink::Alarm
            &&& want == Some(Attention::NeedsInput) && !on ==> spans[i].ink == Ink::Mid
            &&& want == Some(Attention::Idle) ==> spans[i].ink == Ink::Low
            &&& want is None && tab == i ==> spans[i].ink == Ink::Selected
            &&& want is None && tab != i ==> spans[i].ink == Ink::Dim
        }),
    decreases n,
{
    assert(labels_line(tabs, cap, attention, on, tab, 0) == blank());
    if n > 1 {
        a_label_keeps_its_place(tabs, cap, attention, on, tab, n - 1, if i < n - 1 {
            i
        } else {
            0
        });
    }
}

/// Every tab has its label in its place, by its number and its own name, and in the
/// colour of what it wants: what is on show is told apart only where it wants nothing.
pub proof fn a_tab_is_labelled_as_itself(
    tabs: Seq<Tab>,
    cap: int,
    attention: Seq<Option<Attention>>,
    on: bool,
    tab: usize,
    i: int,
)
    requires
        0 <= i <= tabs.len(),
    ensures
        ({
            let spans = labels_line(tabs, cap, attention, on, tab, tabs.len() as int + 1).spans;
            let want = if i < attention.len() {
                attention[i]
            } else {
                None
            };
            let title = dec((i + 1) as nat) + ":"@ + (if i == 0 {
                "Dashboard"@
            } else {
                tabs[i - 1].name()
            });
            &&& spans.len() == tabs.len() + 1
            &&& title.len() <= cap ==> spans[i].text == " "@ + title + " "@
            &&& title.len() > cap >= 1 ==> spans[i].text == " "@ + title.take(cap - 1) + "…"@ + " "@
            &&& want == Some(Attention::NeedsInput) && on ==> spans[i].ink == Ink::Alarm
            &&& want == Some(Attention::NeedsInput) && !on ==> spans[i].ink == Ink::Mid
            &&& want == Some(Attention::Idle) ==> spans[i].ink == Ink::Low
            &&& want is None && tab == i ==> spans[i].ink == Ink::Selected
            &&& want is None && tab != i ==> spans[i].ink == Ink::Dim
        }),
{
    a_label_keeps_its_place(tabs, cap, attention, on, tab, tabs.len() as int + 1, i);
    let title = bar_title(tabs, i);
    if title.len() > cap && cap >= 1 {
        assert(" "@ + (title.take(cap - 1) + "…"@) + " "@ =~= " "@ + title.take(cap - 1) + "…"@ + " "@);
    }
}

} // verus!
