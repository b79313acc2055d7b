//! The panels under the table: which of them is on show, what stands on their
//! border, and where they are scrolled to.

use vstd::prelude::*;

use crate::app::App;
use crate::bar::column;
use crate::data::SessionData;
use crate::figures::{fixed, nearest_even, pretty_mcp_name, to_nearest_even, tool_text, with_places};
use crate::geometry::Rect;
use crate::model::{Process, Provider, Session, Subagent, Surface};
use crate::panels::log::{tab_at, tab_count, tool_tabs};
use crate::panels::TABS;
use crate::preview;
use crate::styled::{blank, line_of, nothing, Ink, Line, LineView, Text};
use crate::text::{cat, count, cut, dec, decimal, left_in, pad_left, pad_right, right_in, truncate};

verus! {

/// What is said where nothing is selected.
pub const NO_SESSION: &'static str = "No session selected";

/// Width of the tool sidebar.
pub const TOOL_SIDEBAR_W: u16 = 18;

/// The panel that is on show.
pub enum BottomView {
    /// Nothing is selected.
    NoSession,
    /// The session is on another machine, and the panel reads its transcript.
    Elsewhere(String),
    Info,
    Performance,
    Processes,
    Tools,
    Subagents,
    Cost,
    Config,
    Context,
    Preview,
}

/// What stands on the border for the first `n` panels: those that have something
/// to show, the one on show underlined.
pub open spec fn tabs_line(app: App, n: int) -> LineView
    decreases n,
{
    if n <= 0 {
        blank().with(" "@, Ink::Plain)
    } else if !app.offers(n - 1) {
        tabs_line(app, n - 1)
    } else {
        tabs_line(app, n - 1).with(
            TABS[n - 1]@,
            if app.bottom_tab == n - 1 {
                Ink::OpenTab
            } else {
                Ink::Dim
            },
        ).with("  "@, Ink::Plain)
    }
}

/// The columns the names of the first `n` panels take up.
pub open spec fn tabs_width(app: App, n: int) -> int
    decreases n,
{
    if n <= 0 {
        2
    } else if !app.offers(n - 1) {
        tabs_width(app, n - 1)
    } else {
        tabs_width(app, n - 1) + TABS[n - 1]@.len() + 2
    }
}

/// Where the names of the first `n` panels can be clicked.
pub open spec fn tabs_spans(app: App, x: u16, n: int) -> Seq<(u16, u16, usize)>
    decreases n,
{
    if n <= 0 {
        Seq::empty()
    } else if !app.offers(n - 1) {
        tabs_spans(app, x, n - 1)
    } else {
        let at = x + tabs_width(app, n - 1);
        tabs_spans(app, x, n - 1).push((column(at), column(at + TABS[n - 1]@.len()), (n - 1) as usize))
    }
}

/// What a subagent is, on the border. These panels describe the subagent and not
/// the session it ran under, and the two are a keystroke apart.
pub open spec fn subagent_tag(sub: Subagent) -> Seq<char> {
    "↳ "@ + cut(
        if sub.description@.len() == 0 {
            sub.agent_type@
        } else {
            sub.agent_type@ + ": "@ + sub.description@
        },
        48,
    )
}

/// What is said of a session on another machine.
///
/// A panel that drew nothing as zeroes next to a column that reports an amount
/// would not be empty but wrong.
pub open spec fn elsewhere(host: Seq<char>) -> Seq<LineView> {
    seq![
        blank().with("This session is on "@ + host + "."@, Ink::Dim),
        blank(),
        blank().with(
            "cctop reads that machine's summary over ssh; the transcript this panel would break down stays there. Info has everything that crossed."@,
            Ink::Dim,
        ),
    ]
}

/// What is said of a session on another machine.
pub fn elsewhere_note(host: &str) -> (r: Text)
    ensures
        r@ == elsewhere(host@),
{
    let mut t = Text::new();
    let mut s = cat("This session is on ", host);
    s.append(".");
    t.push(line_of(s.as_str(), Ink::Dim));
    t.gap();
    t.push(
        line_of(
            "cctop reads that machine's summary over ssh; the transcript this panel would break down stays there. Info has everything that crossed.",
            Ink::Dim,
        ),
    );
    assert(t@ =~= elsewhere(host@));
    t
}

/// Where a panel's lines go: beside the sidebar for the tools, and everywhere for
/// the others.
pub fn panel_area(inner: Rect, tools: bool) -> (r: Rect)
    ensures
        if tools {
            r == (Rect {
                x: column(inner.x + TOOL_SIDEBAR_W + 1),
                width: (if inner.width > TOOL_SIDEBAR_W + 1 {
                    inner.width - TOOL_SIDEBAR_W - 1
                } else {
                    0
                }) as u16,
                ..inner
            })
        } else {
            r == inner
        },
{
    if tools {
        Rect {
            x: inner.x.saturating_add(TOOL_SIDEBAR_W + 1),
            y: inner.y,
            width: inner.width.saturating_sub(TOOL_SIDEBAR_W + 1),
            height: inner.height,
        }
    } else {
        inner
    }
}

/// An entry of the sidebar: a tool and how often it was used.
pub open spec fn sidebar_line(name: Seq<char>, uses: u64, selected: bool) -> LineView {
    let times = dec(uses as nat);
    let room = if times.len() + 2 < TOOL_SIDEBAR_W {
        TOOL_SIDEBAR_W - times.len() - 2
    } else {
        0
    };
    let shown = left_in(cut(tool_text(name), room), room);
    (if selected {
        blank().with_bold(shown, Ink::Value)
    } else {
        blank().with(shown, Ink::Dim)
    }).with(" "@, Ink::Plain).with(times, Ink::Dim)
}

/// The first entry of the sidebar on show: the selected one stays in sight where
/// the list is longer than the panel.
pub open spec fn sidebar_first(tool_tab: usize, height: u16) -> int {
    let half = height as int / 2;
    if tool_tab < half {
        0
    } else {
        tool_tab - half
    }
}

/// How many entries of the sidebar are on show.
pub open spec fn sidebar_count(total: int, first: int, height: u16) -> int {
    if total <= first {
        0
    } else if total - first < height {
        total - first
    } else {
        height as int
    }
}

/// The sidebar of the tool log, and where it can be clicked: the column behind it,
/// its first row, the first entry on show, and how many are.
pub fn tool_sidebar(data: &SessionData, tool_tab: usize, inner: Rect) -> (r: (Text, (u16, u16, usize, usize)))
    ensures
        ({
            let first = sidebar_first(tool_tab, inner.height);
            let shown = sidebar_count(tab_count(*data), first, inner.height);
            &&& r.0@ == Seq::new(
                shown as nat,
                |i: int|
                    sidebar_line(tab_at(*data, first + i).0, tab_at(*data, first + i).1, first + i == tool_tab),
            )
            &&& r.1 == (column(inner.x + TOOL_SIDEBAR_W), inner.y, first as usize, shown as usize)
        }),
{
    let tabs = tool_tabs(data);
    let total: usize = tabs.len();
    let first: usize = tool_tab.saturating_sub(inner.height as usize / 2);
    let left: usize = total.saturating_sub(first);
    let shown: usize = if left < inner.height as usize {
        left
    } else {
        inner.height as usize
    };
    let mut t = Text::new();
    let mut i: usize = 0;
    while i < shown
        invariant
            i <= shown,
            total == tabs@.len(),
            shown > 0 ==> first + shown <= total,
            forall|k: int| 0 <= k < tabs@.len() ==> ((#[trigger] tabs@[k]).0@, tabs@[k].1) == tab_at(*data, k),
            t@.len() == i,
            forall|k: int|
                0 <= k < i ==> #[trigger] t@[k] == sidebar_line(
                    tab_at(*data, first + k).0,
                    tab_at(*data, first + k).1,
                    first + k == tool_tab,
                ),
        decreases shown - i,
    {
        let entry = &tabs[first + i];
        assert((entry.0@, entry.1) == tab_at(*data, first + i));
        let uses = decimal(entry.1 as u128);
        let w: usize = count(uses.as_str());
        let room: usize = if w < TOOL_SIDEBAR_W as usize {
            (TOOL_SIDEBAR_W as usize - w).saturating_sub(2)
        } else {
            0
        };
        let name = truncate(pretty_mcp_name(entry.0.as_str()).as_str(), room);
        let mut l = Line::new();
        if first + i == tool_tab {
            l.put_bold(pad_right(name.as_str(), room).as_str(), Ink::Value);
        } else {
            l.put(pad_right(name.as_str(), room).as_str(), Ink::Dim);
        }
        l.put(" ", Ink::Plain);
        l.put(uses.as_str(), Ink::Dim);
        t.push(l);
        i += 1;
    }
    let ghost want = Seq::new(
        shown as nat,
        |k: int| sidebar_line(tab_at(*data, first + k).0, tab_at(*data, first + k).1, first + k == tool_tab),
    );
    assert(t@ =~= want);
    (t, (inner.x.saturating_add(TOOL_SIDEBAR_W), inner.y, first, shown))
}

/// The selected entry of the sidebar is on show wherever the sidebar has rows.
pub proof fn the_selected_tool_stays_in_sight(total: int, tool_tab: usize, height: u16)
    requires
        tool_tab < total,
        height > 0,
    ensures
        ({
            let first = sidebar_first(tool_tab, height);
            first <= tool_tab < first + sidebar_count(total, first, height)
        }),
{
}

/// Why a session's load and memory are not charted.
pub open spec fn unmeasured(session: Session) -> Option<Seq<LineView>> {
    if session.surface == Surface::DesktopCowork {
        Some(
            seq![
                blank().with("Cowork sessions run in a cloud VM."@, Ink::Dim),
                blank().with("No local CPU or memory metrics are available."@, Ink::Dim),
            ],
        )
    } else if session.surface == Surface::Editor && session.provider == Provider::Cursor {
        Some(
            seq![
                blank().with("Cursor uses a shared editor process."@, Ink::Dim),
                blank().with("No per-session CPU or memory metrics are available."@, Ink::Dim),
            ],
        )
    } else if session.process is None {
        Some(seq![blank().with("Performance data is only available for running sessions."@, Ink::Dim)])
    } else {
        None
    }
}

/// Why a session's load and memory are not charted.
pub fn performance_note(session: &Session) -> (r: Option<Text>)
    ensures
        match (r, unmeasured(*session)) {
            (Some(t), Some(says)) => t@ == says,
            (None, None) => true,
            _ => false,
        },
{
    let mut t = Text::new();
    if session.surface == Surface::DesktopCowork {
        t.push(line_of("Cowork sessions run in a cloud VM.", Ink::Dim));
        t.push(line_of("No local CPU or memory metrics are available.", Ink::Dim));
    } else if session.surface == Surface::Editor && session.provider == Provider::Cursor {
        t.push(line_of("Cursor uses a shared editor process.", Ink::Dim));
        t.push(line_of("No per-session CPU or memory metrics are available.", Ink::Dim));
    } else if session.process.is_none() {
        t.push(line_of("Performance data is only available for running sessions.", Ink::Dim));
    } else {
        return None;
    }
    assert(t@ =~= unmeasured(*session)->0);
    Some(t)
}

/// What stands over the chart of the load, and over that of the memory.
pub open spec fn performance_line(p: Process, memory: bool) -> LineView {
    if memory {
        blank().with("Mem "@, Ink::Label).with(
            right_in(dec(nearest_even(p.memory as nat, 1_048_576, 1)), 8) + " MB"@,
            Ink::Value,
        )
    } else {
        blank().with("CPU "@, Ink::Label).with(right_in(fixed(p.cpu as nat, 10, 10, 1), 6) + "%"@, Ink::Cpu(p.cpu)).with(
            "   "@,
            Ink::Plain,
        ).with("PIDs "@, Ink::Label).with(dec(p.pids as nat), Ink::Value)
    }
}

/// What stands over the chart of the load, and over that of the memory.
pub fn performance_heads(p: &Process) -> (r: (Line, Line))
    ensures
        r.0@ == performance_line(*p, false),
        r.1@ == performance_line(*p, true),
{
    let mut cpu = Line::new();
    cpu.put("CPU ", Ink::Label);
    let mut s = pad_left(with_places(p.cpu as u128, 10, 10, 1).as_str(), 6);
    s.append("%");
    cpu.put(s.as_str(), Ink::Cpu(p.cpu));
    cpu.put("   ", Ink::Plain);
    cpu.put("PIDs ", Ink::Label);
    cpu.put(decimal(p.pids as u128).as_str(), Ink::Value);
    let mut mem = Line::new();
    mem.put("Mem ", Ink::Label);
    let mut s = pad_left(decimal(to_nearest_even(p.memory as u128, 1_048_576, 1)).as_str(), 8);
    s.append(" MB");
    mem.put(s.as_str(), Ink::Value);
    (cpu, mem)
}

/// How many rows a chart of the load has in a panel of `height`.
pub fn chart_rows(height: u16) -> (r: usize)
    ensures
        r == (if height < 4 {
            2
        } else {
            height - 2
        }),
{
    if height < 4 {
        2
    } else {
        (height - 2) as usize
    }
}

/// How far `lines` lines can be scrolled in `height` rows. As many lines as sixteen
/// bits can count can be.
pub open spec fn scroll_room(lines: usize, height: u16) -> int {
    let n = if lines > u16::MAX {
        u16::MAX as int
    } else {
        lines as int
    };
    if n < height {
        0
    } else {
        n - height
    }
}

impl App {
    /// The panel on show.
    pub open spec fn view_says(&self, v: BottomView) -> bool {
        match self.session_at() {
            None => v is NoSession,
            Some(s) => if self.bottom_tab != 0 && s.remote is Some {
                v matches BottomView::Elsewhere(host) && host@ == s.remote->0.host@
            } else if self.bottom_tab == 0 {
                v is Info
            } else if self.bottom_tab == 1 {
                v is Performance
            } else if self.bottom_tab == 2 {
                v is Processes
            } else if self.bottom_tab == 3 {
                v is Tools
            } else if self.bottom_tab == 4 {
                v is Subagents
            } else if self.bottom_tab == 5 {
                v is Cost
            } else if self.bottom_tab == 6 {
                v is Config
            } else if self.bottom_tab == preview::TAB {
                v is Preview
            } else {
                v is Context
            },
        }
    }

    /// The panel on show. A row of another machine has what the table shows and
    /// nothing behind it, and only Info is built from that.
    pub fn bottom_view(&self) -> (r: BottomView)
        ensures
            self.view_says(r),
    {
        let session = match self.selected_session() {
            None => {
                return BottomView::NoSession;
            },
            Some(s) => s,
        };
        if self.bottom_tab != 0 {
            match &session.remote {
                Some(remote) => {
                    return BottomView::Elsewhere(remote.host.clone());
                },
                None => {},
            }
        }
        match self.bottom_tab {
            0 => BottomView::Info,
            1 => BottomView::Performance,
            2 => BottomView::Processes,
            3 => BottomView::Tools,
            4 => BottomView::Subagents,
            5 => BottomView::Cost,
            6 => BottomView::Config,
            _ => if self.bottom_tab == preview::TAB {
                BottomView::Preview
            } else {
                BottomView::Context
            },
        }
    }

    /// What stands on the panels' border, and where it can be clicked.
    pub fn bottom_tabs(&self, area: Rect) -> (r: (Line, Vec<(u16, u16, usize)>))
        ensures
            r.0@ == (match self.subagent_at() {
                Some(sub) => tabs_line(*self, 9).with(subagent_tag(sub), Ink::Accent),
                None => tabs_line(*self, 9),
            }),
            r.1@ == tabs_spans(*self, area.x, 9),
    {
        let mut l = Line::new();
        l.put(" ", Ink::Plain);
        let mut spans: Vec<(u16, u16, usize)> = Vec::new();
        let mut at: u16 = area.x.saturating_add(2);
        let mut i: usize = 0;
        while i < 9
            invariant
                i <= 9,
                at == column(area.x + tabs_width(*self, i as int)),
                tabs_width(*self, i as int) >= 0,
                l@ == tabs_line(*self, i as int),
                spans@ == tabs_spans(*self, area.x, i as int),
            decreases 9 - i,
        {
            if self.tab_available(i) {
                let name = TABS[i];
                let ink = if self.bottom_tab == i {
                    Ink::OpenTab
                } else {
                    Ink::Dim
                };
                l.put(name, ink);
                l.put("  ", Ink::Plain);
                let w: usize = count(name);
                let w: u16 = if w > u16::MAX as usize {
                    u16::MAX
                } else {
                    w as u16
                };
                let end: u16 = at.saturating_add(w);
                spans.push((at, end, i));
                at = end.saturating_add(2);
            }
            i += 1;
        }
        match self.selected_subagent() {
            Some(sub) => {
                let what = if count(sub.description.as_str()) == 0 {
                    sub.agent_type.clone()
                } else {
                    let mut s = cat(sub.agent_type.as_str(), ": ");
                    s.append(sub.description.as_str());
                    s
                };
                l.put(cat("↳ ", truncate(what.as_str(), 48).as_str()).as_str(), Ink::Accent);
            },
            None => {},
        }
        (l, spans)
    }

    /// Where the panel on show is scrolled to.
    pub open spec fn panel_scroll(&self) -> u16 {
        if self.bottom_tab == 0 {
            self.info_scroll
        } else if self.bottom_tab == 2 {
            self.proc_scroll
        } else if self.bottom_tab == 3 {
            self.tool_scroll
        } else if self.bottom_tab == 4 {
            self.subagent_scroll
        } else if self.bottom_tab == 5 {
            self.cost_scroll
        } else if self.bottom_tab == 6 {
            self.config_scroll
        } else {
            self.context_scroll
        }
    }

    /// Settle where a panel of `lines` lines is scrolled to in `height` rows, and
    /// say how far. The tool log follows its tail unless someone has scrolled
    /// away, and `owners` are the invocations its lines belong to.
    pub fn settle_scroll(&mut self, lines: usize, height: u16, owners: Vec<Option<String>>) -> (r: u16)
        ensures
            ({
                let most = scroll_room(lines, height) as u16;
                let tools = old(self).bottom_tab == 3;
                let at = if tools && old(self).tool_follow {
                    most
                } else {
                    old(self).panel_scroll()
                };
                &&& r == (if at < most {
                    at
                } else {
                    most
                })
                &&& *final(self) == (App {
                    panel_max_scroll: most,
                    tool_owners: if tools {
                        owners
                    } else {
                        old(self).tool_owners
                    },
                    tool_scroll: if tools && old(self).tool_follow {
                        most
                    } else {
                        old(self).tool_scroll
                    },
                    ..*old(self)
                })
            }),
    {
        let n: u16 = if lines > u16::MAX as usize {
            u16::MAX
        } else {
            lines as u16
        };
        let most: u16 = n.saturating_sub(height);
        self.panel_max_scroll = most;
        if self.bottom_tab == 3 {
            self.tool_owners = owners;
            if self.tool_follow {
                self.tool_scroll = most;
            }
        }
        let at: u16 = match self.bottom_tab {
            0 => self.info_scroll,
            2 => self.proc_scroll,
            3 => self.tool_scroll,
            4 => self.subagent_scroll,
            5 => self.cost_scroll,
            6 => self.config_scroll,
            _ => self.context_scroll,
        };
        if at < most {
            at
        } else {
            most
        }
    }
}

proof fn names_are_as_wide(app: App, n: int)
    requires
        0 <= n <= 9,
    ensures
        tabs_width(app, n) == tabs_line(app, n).words().len() + 1,
    decreases n,
{
    reveal_strlit(" ");
    reveal_strlit("  ");
    if n > 0 {
        names_are_as_wide(app, n - 1);
        if app.offers(n - 1) {
            let before = tabs_line(app, n - 1);
            let mid = before.with(
                TABS[n - 1]@,
                if app.bottom_tab == n - 1 {
                    Ink::OpenTab
                } else {
                    Ink::Dim
                },
            );
            let all = tabs_line(app, n);
            assert(mid.spans.drop_last() =~= before.spans);
            assert(all.spans.drop_last() =~= mid.spans);
            assert(crate::styled::words_of(mid.spans) == crate::styled::words_of(before.spans) + TABS[n - 1]@);
            assert(crate::styled::words_of(all.spans) == crate::styled::words_of(mid.spans) + "  "@);
        }
    } else {
        let one = tabs_line(app, 0);
        assert(one.spans.drop_last() =~= blank().spans);
        assert(crate::styled::words_of(blank().spans).len() == 0);
        assert(crate::styled::words_of(one.spans) == crate::styled::words_of(blank().spans) + " "@);
    }
}

proof fn a_name_can_be_clicked(app: App, x: u16, n: int, i: int)
    requires
        0 <= i < n <= 9,
        app.offers(i),
    ensures
        tabs_spans(app, x, n).contains(
            (column(x + tabs_width(app, i)), column(x + tabs_width(app, i) + TABS[i]@.len()), i as usize),
        ),
    decreases n,
{
    let one = (column(x + tabs_width(app, i)), column(x + tabs_width(app, i) + TABS[i]@.len()), i as usize);
    let all = tabs_spans(app, x, n);
    if i < n - 1 {
        a_name_can_be_clicked(app, x, n - 1, i);
        let before = tabs_spans(app, x, n - 1);
        let k = choose|k: int| 0 <= k < before.len() && before[k] == one;
        assert(all[k] == one);
    } else {
        assert(all[all.len() - 1] == one);
    }
}

proof fn only_offers_can_be_clicked(app: App, x: u16, n: int, k: int)
    requires
        0 <= n <= 9,
        0 <= k < tabs_spans(app, x, n).len(),
    ensures
        tabs_spans(app, x, n)[k].2 < n,
        app.offers(tabs_spans(app, x, n)[k].2 as int),
    decreases n,
{
    if n > 0 {
        if k < tabs_spans(app, x, n - 1).len() {
            only_offers_can_be_clicked(app, x, n - 1, k);
        }
    }
}

/// Every panel that has something to show can be clicked on the cells its own name is
/// drawn in, and a panel that has nothing cannot be.
pub proof fn a_panel_is_clicked_on_its_name(app: App, x: u16, i: int, k: int)
    requires
        0 <= i < 9,
    ensures
        app.offers(i) ==> tabs_spans(app, x, 9).contains(
            (
                column(x + 1 + tabs_line(app, i).words().len()),
                column(x + 1 + tabs_line(app, i).words().len() + TABS[i]@.len()),
                i as usize,
            ),
        ),
        app.offers(i) ==> tabs_line(app, i + 1).words() == tabs_line(app, i).words() + TABS[i]@ + "  "@,
        !app.offers(i) ==> tabs_line(app, i + 1) == tabs_line(app, i),
        0 <= k < tabs_spans(app, x, 9).len() ==> app.offers(tabs_spans(app, x, 9)[k].2 as int),
{
    names_are_as_wide(app, i);
    if app.offers(i) {
        a_name_can_be_clicked(app, x, 9, i);
        let before = tabs_line(app, i);
        let mid = before.with(
            TABS[i]@,
            if app.bottom_tab == i {
                Ink::OpenTab
            } else {
                Ink::Dim
            },
        );
        let all = tabs_line(app, i + 1);
        assert(mid.spans.drop_last() =~= before.spans);
        assert(all.spans.drop_last() =~= mid.spans);
        assert(crate::styled::words_of(mid.spans) == crate::styled::words_of(before.spans) + TABS[i]@);
        assert(crate::styled::words_of(all.spans) == crate::styled::words_of(mid.spans) + "  "@);
    }
    if 0 <= k < tabs_spans(app, x, 9).len() {
        only_offers_can_be_clicked(app, x, 9, k);
    }
}

/// An entry of the sidebar has its tool's own name and how often that tool was used.
pub proof fn a_tool_is_beside_its_uses(name: Seq<char>, uses: u64, selected: bool)
    ensures
        ({
            let spans = sidebar_line(name, uses, selected).spans;
            let room = spans[0].text.len() as int;
            &&& spans[0].text == left_in(cut(tool_text(name), room), room)
            &&& crate::text::reading(spans[2].text) == uses
            &&& selected <==> spans[0].ink == Ink::Value
            &&& room + 1 + spans[2].text.len() >= TOOL_SIDEBAR_W - 1
        }),
{
    crate::text::a_number_reads_back(uses as nat);
    let times = dec(uses as nat);
    let room = if times.len() + 2 < TOOL_SIDEBAR_W {
        TOOL_SIDEBAR_W - times.len() - 2
    } else {
        0
    };
    crate::text::a_cut_text_begins_the_same(tool_text(name), room);
    assert(left_in(cut(tool_text(name), room), room).len() == room);
}

/// The load stands over the chart of the load and the memory over that of the memory.
pub proof fn a_chart_is_headed_by_its_figure(p: Process)
    requires
        p.cpu < 0x1_0000_0000_0000,
        p.memory < 0x400_0000_0000,
    ensures
        ({
            let load = performance_line(p, false).spans;
            let memory = crate::text::reading(performance_line(p, true).spans[1].text);
            &&& crate::text::reading(load[1].text) == p.cpu
            &&& load[1].ink == Ink::Cpu(p.cpu)
            &&& crate::text::reading(load[4].text) == p.pids
            &&& 2 * (memory * 1_048_576 - p.memory) <= 1_048_576
            &&& 2 * (p.memory - memory * 1_048_576) <= 1_048_576
        }),
{
    reveal_with_fuel(crate::figures::tens, 2);
    assert(crate::figures::tens(1) == 10);
    crate::figures::a_figure_reads_near(p.cpu as nat, 10, 1);
    reveal_strlit("%");
    reveal_strlit(" MB");
    let n = fixed(p.cpu as nat, 10, 10, 1);
    let shown = right_in(n, 6);
    let pad = (shown.len() - n.len()) as int;
    assert(shown =~= crate::text::times(' ', pad) + n);
    crate::text::marks_before_are_not_read(crate::text::times(' ', pad), n);
    crate::text::only_digits_are_read(shown, "%"@);
    crate::text::a_number_reads_back(p.pids as nat);
    let mb = nearest_even(p.memory as nat, 1_048_576, 1);
    crate::figures::a_share_is_near(p.memory as nat, 1_048_576, 1);
    crate::text::a_number_reads_back(mb);
    let m = dec(mb);
    let told = right_in(m, 8);
    let pad = (told.len() - m.len()) as int;
    assert(told =~= crate::text::times(' ', pad) + m);
    crate::text::marks_before_are_not_read(crate::text::times(' ', pad), m);
    crate::text::only_digits_are_read(told, " MB"@);
}

/// The panel that is shown is the one whose name is lit on the border, and where it is
/// scrolled to is its own.
pub proof fn the_panel_on_show_is_the_one_named(app: App, v: BottomView)
    requires
        app.session_at() is Some,
        app.session_at()->0.remote is None,
        app.view_says(v),
    ensures
        app.bottom_tab == 0 ==> v is Info && app.panel_scroll() == app.info_scroll,
        app.bottom_tab == 1 ==> v is Performance,
        app.bottom_tab == 2 ==> v is Processes && app.panel_scroll() == app.proc_scroll,
        app.bottom_tab == 3 ==> v is Tools && app.panel_scroll() == app.tool_scroll,
        app.bottom_tab == 4 ==> v is Subagents && app.panel_scroll() == app.subagent_scroll,
        app.bottom_tab == 5 ==> v is Cost && app.panel_scroll() == app.cost_scroll,
        app.bottom_tab == 6 ==> v is Config && app.panel_scroll() == app.config_scroll,
        app.bottom_tab == 7 ==> v is Context && app.panel_scroll() == app.context_scroll,
        app.bottom_tab == 8 ==> v is Preview,
{
}

/// A subagent's panels are tagged with what it is and what it was asked.
pub proof fn a_subagent_is_tagged_as_itself(sub: Subagent)
    ensures
        sub.description@.len() == 0 ==> subagent_tag(sub) == "↳ "@ + cut(sub.agent_type@, 48),
        sub.description@.len() > 0 ==> subagent_tag(sub) == "↳ "@ + cut(sub.agent_type@ + ": "@ + sub.description@, 48),
{
}

/// A session is charted where it has a process of its own here, and where it has not it
/// is said why.
pub proof fn a_session_with_a_process_is_charted(s: Session)
    ensures
        s.surface == Surface::Cli ==> (unmeasured(s) is None <==> s.process is Some),
        s.surface == Surface::DesktopCowork ==> unmeasured(s) is Some,
        s.surface == Surface::Editor && s.provider == Provider::Cursor ==> unmeasured(s) is Some,
{
}

/// What can be scrolled to is every line and no more: the last row shown is the last
/// line where there are more lines than rows.
pub proof fn the_last_line_can_be_scrolled_to(lines: usize, height: u16)
    ensures
        lines <= height ==> scroll_room(lines, height) == 0,
        height < lines <= u16::MAX ==> scroll_room(lines, height) + height == lines,
{
}

} // verus!
