//! The launcher: what to put in a tab, where it will run, and as whom. And what
//! the agents have been asked to report.

use vstd::prelude::*;

use crate::bar::column;
use crate::figures::{short_path, tildify};
use crate::geometry::Rect;
use crate::modals::menu::{tail, tail_text};
use crate::quota::maybe;
use crate::styled::{blank, line_of, nothing, Ink, Line, LineView, Text};
use crate::text::{cat, count, cut, dec, decimal, left_in, pad_right, truncate};

verus! {

/// The columns of the launcher.
pub const WIDTH: u16 = 62;

/// A choice of the launcher, as its row shows it.
pub struct Offer {
    /// An agent that is still running, rather than a new one.
    pub waiting: bool,
    /// Someone is looking at it already.
    pub attached: bool,
    pub name: String,
    /// The directory it works in, as short as tells it from the others.
    pub at: String,
    /// What it last said of itself, and the ink of that.
    pub signal: Option<(String, Ink)>,
}

/// The directory field, while it is typed into.
pub struct CwdField {
    pub input: String,
    /// There is no such directory.
    pub bad: bool,
    /// The directories that are offered.
    pub hits: Vec<String>,
    /// Which of them is picked.
    pub pick: Option<usize>,
}

/// Where what is launched goes.
#[derive(Debug, Clone, Copy, PartialEq, Eq, Structural)]
pub enum LaunchInto {
    Tab,
    Split { stacked: bool },
}

/// What the launcher is drawn from.
pub struct Launcher {
    pub offers: Vec<Offer>,
    pub cursor: usize,
    /// The field, where the directory is being changed.
    pub field: Option<CwdField>,
    pub cwd: Option<String>,
    /// The account a launch runs as, where there is one to pick.
    pub profile: Option<String>,
    /// Whether the context of another session is handed on.
    pub brief: bool,
    pub into: LaunchInto,
}

/// How many of the first `n` choices are agents that are still running.
pub open spec fn still_running(offers: Seq<Offer>, n: int) -> int
    decreases n,
{
    if n <= 0 {
        0
    } else {
        still_running(offers, n - 1) + (if offers[n - 1].waiting {
            1int
        } else {
            0int
        })
    }
}

/// The row of a choice: whether it is running and looked at, what it is called,
/// where it works and what it said of itself. The three together are what tells
/// one agent from another.
pub open spec fn offer_line(o: Offer, selected: bool) -> LineView {
    let dot = if o.waiting && o.attached {
        "◉"@
    } else if o.waiting {
        "●"@
    } else {
        " "@
    };
    let dot_ink = if !o.waiting {
        Ink::Dimmer
    } else {
        match o.signal {
            Some(s) => s.1,
            None => Ink::Dim,
        }
    };
    let state = match o.signal {
        Some(s) => s.0@,
        None => ""@,
    };
    let state_ink = match o.signal {
        Some(s) => s.1,
        None => Ink::Dim,
    };
    blank().with(" "@ + dot + " "@, dot_ink).with(
        left_in(cut(o.name@, 24), 24),
        if selected {
            Ink::Selected
        } else {
            Ink::Plain
        },
    ).with(left_in(cut(o.at@, 19), 20), Ink::Dim).with(left_in(cut(state, 12), 12), state_ink)
}

fn offer_row(o: &Offer, selected: bool) -> (r: Line)
    ensures
        r@ == offer_line(*o, selected),
{
    let dot = if o.waiting && o.attached {
        "◉"
    } else if o.waiting {
        "●"
    } else {
        " "
    };
    let (state, ink) = match &o.signal {
        Some((s, ink)) => (s.as_str(), *ink),
        None => ("", Ink::Dim),
    };
    let dot_ink = if !o.waiting {
        Ink::Dimmer
    } else {
        ink
    };
    let mut l = Line::new();
    let mut s = cat(" ", dot);
    s.append(" ");
    l.put(s.as_str(), dot_ink);
    l.put(
        pad_right(truncate(o.name.as_str(), 24).as_str(), 24).as_str(),
        if selected {
            Ink::Selected
        } else {
            Ink::Plain
        },
    );
    l.put(pad_right(truncate(o.at.as_str(), 19).as_str(), 20).as_str(), Ink::Dim);
    l.put(pad_right(truncate(state, 12).as_str(), 12).as_str(), ink);
    l
}

/// The rows of the first `n` choices, with a heading over each group, so that an
/// agent that is still running is never picked in the belief that it starts a new
/// one.
pub open spec fn offer_lines(offers: Seq<Offer>, cursor: usize, waiting: int, n: int) -> Seq<LineView>
    decreases n,
{
    if n <= 0 {
        nothing()
    } else {
        let i = n - 1;
        let before = offer_lines(offers, cursor, waiting, i);
        let before = if i == 0 && waiting > 0 {
            before.push(blank().with(" Still running"@, Ink::Label))
        } else {
            before
        };
        let before = if i == waiting && waiting > 0 {
            before.push(blank().with(" Start new"@, Ink::Label))
        } else {
            before
        };
        before.push(offer_line(offers[i], i == cursor))
    }
}

/// The line a choice is on.
pub open spec fn choice_line(waiting: int, i: int) -> int {
    if waiting <= 0 {
        i
    } else if i < waiting {
        i + 1
    } else {
        i + 2
    }
}

proof fn offers_counted(offers: Seq<Offer>, cursor: usize, waiting: int, n: int)
    requires
        0 <= n,
        0 <= waiting,
    ensures
        offer_lines(offers, cursor, waiting, n).len() == (if n == 0 {
            0
        } else {
            choice_line(waiting, n - 1) + 1
        }),
    decreases n,
{
    if n > 0 {
        offers_counted(offers, cursor, waiting, n - 1);
    }
}

proof fn running_is_at_most(offers: Seq<Offer>, n: int)
    ensures
        0 <= still_running(offers, n),
        0 <= n ==> still_running(offers, n) <= n,
    decreases n,
{
    if n > 0 {
        running_is_at_most(offers, n - 1);
    }
}

/// The window of the list that is shown: its first line and how many there are.
#[derive(Debug, Clone, Copy, PartialEq, Eq, Structural)]
pub struct Shown {
    pub offset: usize,
    pub lines: usize,
    /// Whether there is more than is shown.
    pub scrolled: bool,
}

/// The window of a list of `total` lines in an area, where `hits` directories are
/// offered under it: the borders, the lines held under the list, and what a modal
/// leaves of the screen are taken off.
pub open spec fn window(total: int, at: int, height: u16, hits: int) -> Shown {
    let left = height - 6 - hits;
    let room = if left < 1 {
        1
    } else {
        left
    };
    let before = if at < room - 1 {
        0
    } else {
        at - (room - 1)
    };
    let offset = if total <= room {
        0
    } else if before < total - room {
        before
    } else {
        total - room
    };
    Shown {
        offset: offset as usize,
        lines: (if room < total - offset {
            room
        } else {
            total - offset
        }) as usize,
        scrolled: total > room,
    }
}

fn window_of(total: usize, at: usize, height: u16, hits: usize) -> (r: Shown)
    requires
        at <= total,
    ensures
        r == window(total as int, at as int, height, hits as int),
        r.offset + r.lines <= total,
{
    let left: usize = (height as usize).saturating_sub(6).saturating_sub(hits);
    let room: usize = if left < 1 {
        1
    } else {
        left
    };
    let before: usize = at.saturating_sub(room - 1);
    let offset: usize = if total <= room {
        0
    } else if before < total - room {
        before
    } else {
        total - room
    };
    let lines: usize = if room < total - offset {
        room
    } else {
        total - offset
    };
    Shown { offset, lines, scrolled: total > room }
}

/// The highlighted choice is in the window, and the window is within the list.
pub proof fn the_highlight_is_in_the_window(total: int, at: int, height: u16, hits: int)
    requires
        0 <= at < total <= usize::MAX,
        0 <= hits,
    ensures
        ({
            let w = window(total, at, height, hits);
            w.offset <= at < w.offset + w.lines <= total
        }),
{
}

impl Launcher {
    /// How many of the choices are agents that are still running.
    pub open spec fn waiting(&self) -> int {
        still_running(self.offers@, self.offers@.len() as int)
    }

    /// The list.
    pub open spec fn list(&self) -> Seq<LineView> {
        offer_lines(self.offers@, self.cursor, self.waiting(), self.offers@.len() as int)
    }

    /// How many directories are offered.
    pub open spec fn offered_dirs(&self) -> int {
        match self.field {
            Some(f) => f.hits@.len() as int,
            None => 0,
        }
    }

    /// The line the cursor is on.
    pub open spec fn cursor_line(&self) -> int {
        if self.cursor < self.offers@.len() {
            choice_line(self.waiting(), self.cursor as int)
        } else {
            0
        }
    }

    /// The window of the list that is shown.
    pub open spec fn shown(&self, height: u16) -> Shown {
        window(self.list().len() as int, self.cursor_line(), height, self.offered_dirs())
    }

    /// Where what is picked will run: an agent opened on the wrong project reads
    /// its way into it before anyone notices.
    pub open spec fn place_line(&self, home: Seq<char>) -> LineView {
        match self.field {
            Some(f) => {
                let ink = if f.bad {
                    Ink::High
                } else {
                    Ink::Value
                };
                blank().with(" in "@, Ink::Label).with(tail_text(f.input@, 54), ink).with("▏"@, Ink::Value).with(
                    if f.bad {
                        "  no such directory"@
                    } else {
                        ""@
                    },
                    Ink::High,
                )
            },
            None => blank().with(
                if self.cursor < self.offers@.len() && self.offers@[self.cursor as int].waiting {
                    if self.offers@[self.cursor as int].attached {
                        " ◉ already open elsewhere — both windows share one size"@
                    } else {
                        " where it already is"@
                    }
                } else {
                    match self.cwd {
                        Some(dir) => " in "@ + cut(short_path(dir@, home), 40) + "  (c to change)"@,
                        None => " in this directory  (c to change)"@,
                    }
                },
                Ink::Label,
            ),
        }
    }

    /// Whether a choice to start something new is picked.
    pub open spec fn starts(&self) -> bool {
        self.cursor < self.offers@.len() && !self.offers@[self.cursor as int].waiting
    }

    /// The keys.
    pub open spec fn keys_text(&self, scrolled: bool) -> Seq<char> {
        let keys = match self.field {
            Some(f) => if f.hits@.len() > 0 {
                " Enter accept  Tab fill in  ↑/↓ pick  Esc cancel"@
            } else {
                " Enter accept  Esc keep the old one"@
            },
            None => if self.cursor < self.offers@.len() && self.offers@[self.cursor as int].waiting {
                " ↑/↓  Enter reattach  Esc cancel"@
            } else {
                " ↑/↓  Enter start  Esc cancel"@
            },
        };
        if scrolled {
            keys + "   "@ + dec((self.cursor + 1) as nat) + " of "@ + dec(self.offers@.len())
        } else {
            keys
        }
    }

    /// The first `n` directories that are offered. What tells two long paths apart
    /// is their end.
    pub open spec fn dir_lines(&self, home: Seq<char>, n: int) -> Seq<LineView>
        decreases n,
    {
        if n <= 0 || self.field is None {
            nothing()
        } else {
            let f = self.field->0;
            let picked = f.pick == Some((n - 1) as usize);
            self.dir_lines(home, n - 1).push(
                blank().with(
                    if picked {
                        " › "@
                    } else {
                        "   "@
                    },
                    Ink::Dim,
                ).with(
                    tail_text(short_path(f.hits@[n - 1]@, home), 54),
                    if picked {
                        Ink::Selected
                    } else {
                        Ink::Dim
                    },
                ),
            )
        }
    }

    /// What the launcher says.
    pub open spec fn lines(&self, home: Seq<char>, height: u16) -> Seq<LineView> {
        let w = self.shown(height);
        let top = self.list().subrange(w.offset as int, w.offset + w.lines).push(self.place_line(home))
            + self.dir_lines(home, self.offered_dirs());
        let mid = if self.starts() && self.profile is Some {
            top.push(
                blank().with(" as "@, Ink::Label).with(self.profile->0@, Ink::Value).with("  (p to change)"@, Ink::Dim),
            )
        } else {
            top
        };
        mid.push(blank().with(self.keys_text(w.scrolled), Ink::Dim))
    }

    /// The title: a handoff opens the launcher for another reason, and what is
    /// picked is then typed at rather than just started.
    pub open spec fn name(&self) -> Seq<char> {
        if self.brief {
            "Hand the context to"@
        } else {
            match self.into {
                LaunchInto::Tab => "New tab"@,
                LaunchInto::Split { stacked: false } => "Split right"@,
                LaunchInto::Split { stacked: true } => "Split down"@,
            }
        }
    }

    /// The title.
    pub fn title(&self) -> (r: &'static str)
        ensures
            r@ == self.name(),
    {
        if self.brief {
            return "Hand the context to";
        }
        match self.into {
            LaunchInto::Tab => "New tab",
            LaunchInto::Split { stacked } => if stacked {
                "Split down"
            } else {
                "Split right"
            },
        }
    }

    fn waiting_count(&self) -> (r: usize)
        ensures
            r == self.waiting(),
            r <= self.offers@.len(),
    {
        let mut sum: usize = 0;
        let mut i: usize = 0;
        while i < self.offers.len()
            invariant
                i <= self.offers@.len(),
                sum == still_running(self.offers@, i as int),
                sum <= i,
            decreases self.offers@.len() - i,
        {
            if self.offers[i].waiting {
                sum += 1;
            }
            i += 1;
        }
        sum
    }

    fn place(&self, home: &str) -> (r: Line)
        ensures
            r@ == self.place_line(home@),
    {
        match &self.field {
            Some(f) => {
                let mut l = Line::new();
                l.put(" in ", Ink::Label);
                let ink = if f.bad {
                    Ink::High
                } else {
                    Ink::Value
                };
                l.put(tail(f.input.as_str(), 54).as_str(), ink);
                l.put("▏", Ink::Value);
                l.put(
                    if f.bad {
                        "  no such directory"
                    } else {
                        ""
                    },
                    Ink::High,
                );
                l
            },
            None => {
                if self.cursor < self.offers.len() && self.offers[self.cursor].waiting {
                    if self.offers[self.cursor].attached {
                        line_of(" ◉ already open elsewhere — both windows share one size", Ink::Label)
                    } else {
                        line_of(" where it already is", Ink::Label)
                    }
                } else {
                    match &self.cwd {
                        Some(dir) => {
                            let mut s = cat(" in ", truncate(tildify(dir.as_str(), home).as_str(), 40).as_str());
                            s.append("  (c to change)");
                            line_of(s.as_str(), Ink::Label)
                        },
                        None => line_of(" in this directory  (c to change)", Ink::Label),
                    }
                }
            },
        }
    }

    fn keys(&self, scrolled: bool) -> (r: Line)
        ensures
            r@ == blank().with(self.keys_text(scrolled), Ink::Dim),
    {
        let keys = match &self.field {
            Some(f) => if f.hits.len() > 0 {
                " Enter accept  Tab fill in  ↑/↓ pick  Esc cancel"
            } else {
                " Enter accept  Esc keep the old one"
            },
            None => if self.cursor < self.offers.len() && self.offers[self.cursor].waiting {
                " ↑/↓  Enter reattach  Esc cancel"
            } else {
                " ↑/↓  Enter start  Esc cancel"
            },
        };
        if scrolled {
            let mut s = cat(keys, "   ");
            s.append(decimal(self.cursor as u128 + 1).as_str());
            s.append(" of ");
            s.append(decimal(self.offers.len() as u128).as_str());
            line_of(s.as_str(), Ink::Dim)
        } else {
            line_of(keys, Ink::Dim)
        }
    }

    fn all_rows(&self, waiting: usize) -> (r: Text)
        requires
            waiting == self.waiting(),
        ensures
            r@ == self.list(),
    {
        let n: usize = self.offers.len();
        let mut rows = Text::new();
        let mut i: usize = 0;
        while i < n
            invariant
                i <= n,
                n == self.offers@.len(),
                rows@ == offer_lines(self.offers@, self.cursor, waiting as int, i as int),
            decreases n - i,
        {
            if i == 0 && waiting > 0 {
                rows.push(line_of(" Still running", Ink::Label));
            }
            if i == waiting && waiting > 0 {
                rows.push(line_of(" Start new", Ink::Label));
            }
            rows.push(offer_row(&self.offers[i], i == self.cursor));
            i += 1;
        }
        rows
    }

    /// The launcher in an area, and the window of its list that is shown: on a
    /// short screen the list scrolls, and where it runs and its keys stay.
    pub fn panel(&self, home: &str, height: u16) -> (r: (Text, Shown))
        requires
            self.offers@.len() + 2 <= usize::MAX,
        ensures
            r.0@ == self.lines(home@, height),
            r.1 == self.shown(height),
    {
        let waiting: usize = self.waiting_count();
        let rows = self.all_rows(waiting);
        let n: usize = self.offers.len();
        proof {
            running_is_at_most(self.offers@, n as int);
            offers_counted(self.offers@, self.cursor, waiting as int, n as int);
        }
        let at: usize = if self.cursor < n {
            if waiting == 0 {
                self.cursor
            } else if self.cursor < waiting {
                self.cursor + 1
            } else {
                self.cursor + 2
            }
        } else {
            0
        };
        let hits: usize = match &self.field {
            Some(f) => f.hits.len(),
            None => 0,
        };
        let w = window_of(rows.len(), at, height, hits);
        let mut t = Text::new();
        let total: usize = rows.lines.len();
        let mut i: usize = 0;
        while i < w.lines
            invariant
                i <= w.lines,
                w.offset + w.lines <= total,
                total == rows.lines@.len(),
                t@ == rows@.subrange(w.offset as int, w.offset + i),
            decreases w.lines - i,
        {
            assert(rows@[w.offset + i] == rows.lines@[w.offset + i]@);
            t.push(rows.lines[w.offset + i].copy());
            assert(t@ =~= rows@.subrange(w.offset as int, w.offset + i + 1));
            i += 1;
        }
        t.push(self.place(home));
        let ghost top = t@;
        assert(top + self.dir_lines(home@, 0) =~= top);
        match &self.field {
            Some(f) => {
                let mut i: usize = 0;
                while i < f.hits.len()
                    invariant
                        i <= f.hits@.len(),
                        self.field == Some(*f),
                        t@ == top + self.dir_lines(home@, i as int),
                    decreases f.hits@.len() - i,
                {
                    let picked = match f.pick {
                        Some(p) => p == i,
                        None => false,
                    };
                    let mut l = Line::new();
                    l.put(
                        if picked {
                            " › "
                        } else {
                            "   "
                        },
                        Ink::Dim,
                    );
                    l.put(
                        tail(tildify(f.hits[i].as_str(), home).as_str(), 54).as_str(),
                        if picked {
                            Ink::Selected
                        } else {
                            Ink::Dim
                        },
                    );
                    t.push(l);
                    assert(t@ =~= top + self.dir_lines(home@, i + 1));
                    i += 1;
                }
            },
            None => {},
        }
        if self.cursor < n && !self.offers[self.cursor].waiting {
            match &self.profile {
                Some(p) => {
                    let mut l = Line::new();
                    l.put(" as ", Ink::Label);
                    l.put(p.as_str(), Ink::Value);
                    l.put("  (p to change)", Ink::Dim);
                    t.push(l);
                },
                None => {},
            }
        }
        t.push(self.keys(w.scrolled));
        (t, w)
    }

    /// Where the first `n` choices can be clicked, the list's window being drawn
    /// in `inner`. One that is scrolled out has no row, and the others keep
    /// theirs.
    pub open spec fn choice_hits(&self, w: Shown, inner: Rect, n: int) -> Seq<(u16, usize)>
        decreases n,
    {
        if n <= 0 {
            Seq::empty()
        } else {
            let before = self.choice_hits(w, inner, n - 1);
            let line = choice_line(self.waiting(), n - 1);
            let drawn = line - w.offset;
            if 0 <= drawn < w.lines && inner.y + drawn < inner.y + inner.height {
                before.push((column(inner.y + drawn), (n - 1) as usize))
            } else {
                before
            }
        }
    }

    /// Where the choices can be clicked.
    pub fn choice_rows(&self, w: Shown, inner: Rect) -> (r: Vec<(u16, usize)>)
        requires
            self.offers@.len() + 2 <= usize::MAX,
        ensures
            r@ == self.choice_hits(w, inner, self.offers@.len() as int),
    {
        let waiting: usize = self.waiting_count();
        let mut rows: Vec<(u16, usize)> = Vec::new();
        let mut i: usize = 0;
        let n: usize = self.offers.len();
        while i < n
            invariant
                i <= n,
                n == self.offers@.len(),
                n + 2 <= usize::MAX,
                waiting == self.waiting(),
                rows@ == self.choice_hits(w, inner, i as int),
            decreases n - i,
        {
            let line: usize = if waiting == 0 {
                i
            } else if i < waiting {
                i + 1
            } else {
                i + 2
            };
            if line >= w.offset {
                let drawn: usize = line - w.offset;
                if drawn < w.lines && drawn < inner.height as usize {
                    rows.push((inner.y.saturating_add(drawn as u16), i));
                }
            }
            i += 1;
        }
        rows
    }

    /// Where the directories that are offered can be clicked: they stand under the
    /// list's window and the line of the field.
    pub fn dir_rows(&self, w: Shown, inner: Rect) -> (r: Vec<(u16, usize)>)
        requires
            w.lines < usize::MAX,
        ensures
            r@ == Seq::new(
                self.offered_dirs() as nat,
                |i: int| (column(inner.y + w.lines + 1 + i), i as usize),
            ),
    {
        let mut rows: Vec<(u16, usize)> = Vec::new();
        let n: usize = match &self.field {
            Some(f) => f.hits.len(),
            None => 0,
        };
        let mut i: usize = 0;
        while i < n
            invariant
                i <= n,
                w.lines < usize::MAX,
                rows@ == Seq::new(i as nat, |k: int| (column(inner.y + w.lines + 1 + k), k as usize)),
            decreases n - i,
        {
            let down: u128 = inner.y as u128 + w.lines as u128 + 1 + i as u128;
            let y: u16 = if down > u16::MAX as u128 {
                u16::MAX
            } else {
                down as u16
            };
            rows.push((y, i));
            assert(rows@ =~= Seq::new((i + 1) as nat, |k: int| (column(inner.y + w.lines + 1 + k), k as usize)));
            i += 1;
        }
        rows
    }
}

/// The first `n` lines of a report of what is installed, a problem with its mark.
pub open spec fn report_lines(report: Seq<(String, bool)>, n: int) -> Seq<LineView>
    decreases n,
{
    if n <= 0 {
        nothing()
    } else {
        let (mark, ink) = if report[n - 1].1 {
            (" ! "@, Ink::Mid)
        } else {
            (" · "@, Ink::Value)
        };
        report_lines(report, n - 1).push(blank().with(mark, ink).with(cut(report[n - 1].0@, 73), ink))
    }
}

/// The first `n` of who has reported.
pub open spec fn reporter_lines(reporting: Seq<(String, String)>, n: int) -> Seq<LineView>
    decreases n,
{
    if n <= 0 {
        nothing()
    } else {
        reporter_lines(reporting, n - 1).push(
            blank().with("   "@ + left_in(cut(reporting[n - 1].0@, 24), 24), Ink::Value).with(
                reporting[n - 1].1@,
                Ink::Dim,
            ),
        )
    }
}

/// What has arrived, which is the only proof that anything is installed right.
pub open spec fn arrived_lines(reporting: Seq<(String, String)>) -> Seq<LineView> {
    if reporting.len() == 0 {
        nothing().push(blank().with(" Nothing has reported in yet"@, Ink::Dim))
    } else {
        let all = nothing().push(blank().with(" Reporting"@, Ink::Label)) + reporter_lines(
            reporting,
            if reporting.len() < 6 {
                reporting.len() as int
            } else {
                6
            },
        );
        if reporting.len() > 6 {
            all.push(blank().with("   … and "@ + dec((reporting.len() - 6) as nat) + " more"@, Ink::Dim))
        } else {
            all
        }
    }
}

/// What the agents have been asked to report, and whether they do.
pub open spec fn hooks_lines(
    report: Seq<(String, bool)>,
    reporting: Seq<(String, String)>,
    project: Option<Seq<char>>,
) -> Seq<LineView> {
    (report_lines(report, report.len() as int).push(blank()) + arrived_lines(reporting)).push(blank()).push(
        blank().with(
            match project {
                Some(dir) => " p / P  install / remove in "@ + cut(dir, 43),
                None => " p / P  install / remove for the selected project"@,
            },
            Ink::Dim,
        ),
    ).push(blank().with(" i / x  install / remove for this user (every agent above)"@, Ink::Dim)).push(
        blank().with(" Esc    close   ·   sessions already running keep their old hooks"@, Ink::Dim),
    )
}

/// What the agents have been asked to report, and whether they do. The keys that
/// write into a project name its directory: a file committed to somebody's
/// repository is not a thing to install by accident.
pub fn hooks_panel(report: &Vec<(String, bool)>, reporting: &Vec<(String, String)>, project: Option<&str>) -> (r: Text)
    ensures
        r@ == hooks_lines(report@, reporting@, maybe(project)),
{
    let mut t = Text::new();
    let mut i: usize = 0;
    while i < report.len()
        invariant
            i <= report@.len(),
            t@ == report_lines(report@, i as int),
        decreases report@.len() - i,
    {
        let mut l = Line::new();
        let text = truncate(report[i].0.as_str(), 73);
        if report[i].1 {
            l.put(" ! ", Ink::Mid);
            l.put(text.as_str(), Ink::Mid);
        } else {
            l.put(" · ", Ink::Value);
            l.put(text.as_str(), Ink::Value);
        }
        t.push(l);
        i += 1;
    }
    t.gap();
    t.append(arrived(reporting));
    t.gap();
    match project {
        Some(dir) => {
            t.push(line_of(cat(" p / P  install / remove in ", truncate(dir, 43).as_str()).as_str(), Ink::Dim));
        },
        None => {
            t.push(line_of(" p / P  install / remove for the selected project", Ink::Dim));
        },
    }
    t.push(line_of(" i / x  install / remove for this user (every agent above)", Ink::Dim));
    t.push(line_of(" Esc    close   ·   sessions already running keep their old hooks", Ink::Dim));
    t
}

fn arrived(reporting: &Vec<(String, String)>) -> (r: Text)
    ensures
        r@ == arrived_lines(reporting@),
{
    let n: usize = reporting.len();
    let mut t = Text::new();
    if n == 0 {
        t.push(line_of(" Nothing has reported in yet", Ink::Dim));
        return t;
    }
    t.push(line_of(" Reporting", Ink::Label));
    let ghost top = t@;
    assert(top + reporter_lines(reporting@, 0) =~= top);
    let most: usize = if n < 6 {
        n
    } else {
        6
    };
    let mut i: usize = 0;
    while i < most
        invariant
            i <= most <= reporting@.len(),
            t@ == top + reporter_lines(reporting@, i as int),
        decreases most - i,
    {
        let mut l = Line::new();
        let who = pad_right(truncate(reporting[i].0.as_str(), 24).as_str(), 24);
        l.put(cat("   ", who.as_str()).as_str(), Ink::Value);
        l.put(reporting[i].1.as_str(), Ink::Dim);
        t.push(l);
        assert(t@ =~= top + reporter_lines(reporting@, i + 1));
        i += 1;
    }
    if n > 6 {
        let mut s = cat("   … and ", decimal((n - 6) as u128).as_str());
        s.append(" more");
        t.push(line_of(s.as_str(), Ink::Dim));
    }
    t
}

/// The agents still running are counted each once.
pub proof fn running_agents_are_counted(offers: Seq<Offer>, n: int)
    requires
        0 <= n <= offers.len(),
    ensures
        still_running(offers, n) == offers.take(n).filter(|o: Offer| o.waiting).len(),
        0 <= still_running(offers, n) <= n,
    decreases n,
{
    reveal(Seq::filter);
    if n > 0 {
        running_agents_are_counted(offers, n - 1);
        assert(offers.take(n).drop_last() =~= offers.take(n - 1));
        assert(offers.take(n).last() == offers[n - 1]);
    }
}

proof fn a_choice_keeps_its_line(offers: Seq<Offer>, cursor: usize, waiting: int, n: int, i: int)
    requires
        0 <= i < n <= offers.len(),
        0 <= waiting <= offers.len(),
    ensures
        offer_lines(offers, cursor, waiting, n).len() == choice_line(waiting, n - 1) + 1,
        offer_lines(offers, cursor, waiting, n)[choice_line(waiting, i)] == offer_line(offers[i], i == cursor),
    decreases n,
{
    assert(offer_lines(offers, cursor, waiting, 0).len() == 0);
    if n > 1 {
        a_choice_keeps_its_line(offers, cursor, waiting, n - 1, if i < n - 1 {
            i
        } else {
            0
        });
    }
}

/// Every choice is on the line it is said to be on, under the heading of its kind, and
/// the one that is picked is lit and no other.
pub proof fn every_choice_is_on_its_line(offers: Seq<Offer>, cursor: usize, waiting: int, i: int)
    requires
        0 <= i < offers.len(),
        0 <= waiting <= offers.len(),
    ensures
        ({
            let lines = offer_lines(offers, cursor, waiting, offers.len() as int);
            let line = lines[choice_line(waiting, i)];
            &&& line.spans[1].text == left_in(cut(offers[i].name@, 24), 24)
            &&& line.spans[2].text == left_in(cut(offers[i].at@, 19), 20)
            &&& i == cursor <==> line.spans[1].ink == Ink::Selected
            &&& waiting > 0 ==> lines[0].spans[0].text == " Still running"@
            &&& 0 < waiting < offers.len() ==> lines[waiting + 1].spans[0].text == " Start new"@
        }),
{
    let n = offers.len() as int;
    a_choice_keeps_its_line(offers, cursor, waiting, n, i);
    if waiting > 0 {
        headings_stay(offers, cursor, waiting, n);
    }
}

proof fn headings_stay(offers: Seq<Offer>, cursor: usize, waiting: int, n: int)
    requires
        0 < n <= offers.len(),
        0 < waiting <= offers.len(),
    ensures
        offer_lines(offers, cursor, waiting, n)[0].spans[0].text == " Still running"@,
        waiting < n ==> offer_lines(offers, cursor, waiting, n)[waiting + 1].spans[0].text == " Start new"@,
        offer_lines(offers, cursor, waiting, n).len() == choice_line(waiting, n - 1) + 1,
    decreases n,
{
    assert(offer_lines(offers, cursor, waiting, 0).len() == 0);
    if n > 1 {
        headings_stay(offers, cursor, waiting, n - 1);
    }
}

/// A choice shows whether it is running and looked at, and what it said of itself.
pub proof fn a_choice_shows_its_state(o: Offer, selected: bool)
    ensures
        o.waiting && o.attached ==> offer_line(o, selected).spans[0].text == " "@ + "◉"@ + " "@,
        o.waiting && !o.attached ==> offer_line(o, selected).spans[0].text == " "@ + "●"@ + " "@,
        !o.waiting ==> offer_line(o, selected).spans[0].text == " "@ + " "@ + " "@,
        o.signal matches Some(s) ==> offer_line(o, selected).spans[3].text == left_in(cut(s.0@, 12), 12) && offer_line(
            o,
            selected,
        ).spans[3].ink == s.1,
{
}

proof fn reports_are_listed(report: Seq<(String, bool)>, n: int, i: int)
    requires
        0 <= i < n <= report.len(),
    ensures
        report_lines(report, n).len() == n,
        report_lines(report, n)[i].spans[1].text == cut(report[i].0@, 73),
        report[i].1 ==> report_lines(report, n)[i].spans[0].text == " ! "@,
        !report[i].1 ==> report_lines(report, n)[i].spans[0].text == " · "@,
    decreases n,
{
    assert(report_lines(report, 0).len() == 0);
    if n > 1 {
        reports_are_listed(report, n - 1, if i < n - 1 {
            i
        } else {
            0
        });
    }
}

/// Every line of a report is there, a problem marked and the others not.
pub proof fn a_problem_is_marked(report: Seq<(String, bool)>, i: int)
    requires
        0 <= i < report.len(),
    ensures
        report_lines(report, report.len() as int)[i].spans[1].text == cut(report[i].0@, 73),
        report[i].1 ==> report_lines(report, report.len() as int)[i].spans[0].text == " ! "@,
        !report[i].1 ==> report_lines(report, report.len() as int)[i].spans[0].text == " · "@,
{
    reports_are_listed(report, report.len() as int, i);
}

proof fn reporters_are_listed(reporting: Seq<(String, String)>, n: int, i: int)
    requires
        0 <= i < n <= reporting.len(),
    ensures
        reporter_lines(reporting, n).len() == n,
        reporter_lines(reporting, n)[i].spans[0].text == "   "@ + left_in(cut(reporting[i].0@, 24), 24),
        reporter_lines(reporting, n)[i].spans[1].text == reporting[i].1@,
    decreases n,
{
    assert(reporter_lines(reporting, 0).len() == 0);
    if n > 1 {
        reporters_are_listed(reporting, n - 1, if i < n - 1 {
            i
        } else {
            0
        });
    }
}

/// Those that have reported are listed with what they reported, and those there is no
/// room for are counted.
pub proof fn who_reported_is_listed_or_counted(reporting: Seq<(String, String)>, i: int)
    requires
        0 <= i < reporting.len(),
    ensures
        ({
            let t = arrived_lines(reporting);
            &&& i < 6 ==> t[1 + i].spans[0].text == "   "@ + left_in(cut(reporting[i].0@, 24), 24) && t[1 + i].spans[1].text
                == reporting[i].1@
            &&& reporting.len() <= 6 ==> t.len() == reporting.len() + 1
            &&& reporting.len() > 6 ==> t.len() == 8 && t[7].spans[0].text == "   … and "@ + dec(
                (reporting.len() - 6) as nat,
            ) + " more"@
        }),
{
    let n = if reporting.len() < 6 {
        reporting.len() as int
    } else {
        6
    };
    reporters_are_listed(reporting, n, if i < n {
        i
    } else {
        0
    });
}

proof fn hits_stay(l: Launcher, w: Shown, inner: Rect, n: int, i: int)
    requires
        0 <= i < n,
        w.offset <= choice_line(l.waiting(), i) < w.offset + w.lines,
        choice_line(l.waiting(), i) - w.offset < inner.height,
    ensures
        l.choice_hits(w, inner, n).contains((column(inner.y + choice_line(l.waiting(), i) - w.offset), i as usize)),
    decreases n,
{
    let one = (column(inner.y + choice_line(l.waiting(), i) - w.offset), i as usize);
    let all = l.choice_hits(w, inner, n);
    if i < n - 1 {
        hits_stay(l, w, inner, n - 1, i);
        let before = l.choice_hits(w, inner, n - 1);
        let k = choose|k: int| 0 <= k < before.len() && before[k] == one;
        assert(all[k] == one);
    } else {
        assert(all[all.len() - 1] == one);
    }
}

/// A choice that is in sight is clicked on the row it is drawn on.
pub proof fn a_choice_is_clicked_where_it_is_drawn(l: Launcher, w: Shown, inner: Rect, i: int)
    requires
        0 <= i < l.offers@.len(),
        w.offset <= choice_line(l.waiting(), i) < w.offset + w.lines,
        choice_line(l.waiting(), i) - w.offset < inner.height,
    ensures
        l.choice_hits(w, inner, l.offers@.len() as int).contains(
            (column(inner.y + choice_line(l.waiting(), i) - w.offset), i as usize),
        ),
{
    hits_stay(l, w, inner, l.offers@.len() as int, i);
}

/// What is picked is said to run where it would: where it already is, or in the
/// directory that was chosen; and the keys say whether it is started or joined.
pub proof fn the_launcher_says_where_it_starts(l: Launcher, home: Seq<char>)
    requires
        l.field is None,
        l.cursor < l.offers@.len(),
    ensures
        ({
            let o = l.offers@[l.cursor as int];
            &&& o.waiting && !o.attached ==> l.place_line(home).spans[0].text == " where it already is"@
            &&& !o.waiting && l.cwd is Some ==> l.place_line(home).spans[0].text == " in "@ + cut(
                short_path(l.cwd->0@, home),
                40,
            ) + "  (c to change)"@
            &&& !o.waiting && l.cwd is None ==> l.place_line(home).spans[0].text == " in this directory  (c to change)"@
            &&& o.waiting ==> l.keys_text(false) == " ↑/↓  Enter reattach  Esc cancel"@
            &&& !o.waiting ==> l.keys_text(false) == " ↑/↓  Enter start  Esc cancel"@
        }),
{
}

} // verus!
