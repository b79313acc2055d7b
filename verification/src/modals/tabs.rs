//! Naming a tab, painting it, and finding one by its name.

use vstd::prelude::*;

use crate::app::App;
use crate::bar::{elide, elided, wanted, Attention};
use crate::modals::options::{caret, field_line};
use crate::styled::{blank, line_of, nothing, Ink, Line, LineView, Text};
use crate::tabs::Tab;
use crate::text::{cat, dec, decimal, left_in, pad_left, pad_right, right_in};

verus! {

/// A swatch: `None` is no colour.
pub open spec fn swatch(l: LineView, hue: Option<int>, picked: bool) -> LineView {
    let (glyph, ink) = match hue {
        Some(i) => ("●"@, Ink::Hue(i as u8)),
        None => ("○"@, Ink::Dim),
    };
    let l = l.with(" "@, Ink::Plain);
    if picked {
        l.with("["@, Ink::Dim).with_bold(glyph, ink).with("]"@, Ink::Dim)
    } else {
        l.with(" "@ + glyph + " "@, ink)
    }
}

fn put_swatch(l: &mut Line, hue: Option<u8>, picked: bool)
    ensures
        final(l)@ == swatch(
            old(l)@,
            match hue {
                Some(i) => Some(i as int),
                None => None,
            },
            picked,
        ),
{
    let glyph = if hue.is_some() {
        "●"
    } else {
        "○"
    };
    let ink = match hue {
        Some(i) => Ink::Hue(i),
        None => Ink::Dim,
    };
    l.put(" ", Ink::Plain);
    if picked {
        l.put("[", Ink::Dim);
        l.put_bold(glyph, ink);
        l.put("]", Ink::Dim);
    } else {
        let mut s = cat(" ", glyph);
        s.append(" ");
        l.put(s.as_str(), ink);
    }
}

/// The swatches: no colour first, then the first `n` colours.
pub open spec fn swatches(picked: Option<u8>, n: int) -> LineView
    decreases n,
{
    if n <= 0 {
        swatch(blank().with(" Colour "@, Ink::Dim), None, picked is None)
    } else {
        swatch(swatches(picked, n - 1), Some(n - 1), picked == Some((n - 1) as u8))
    }
}

/// What a tab is to be called, and its colour. The name of the colour is spelled
/// out: without colours every swatch is the same.
pub open spec fn rename_lines(was: Seq<char>, input: Seq<char>, hues: Seq<String>, picked: Option<u8>) -> Seq<LineView> {
    seq![
        blank().with(" Now called "@, Ink::Dim).with(was, Ink::Value),
        blank().with(" The name and colour follow the tab into every cctop on this machine."@, Ink::Dim),
        blank(),
        caret(input),
        blank(),
        swatches(picked, hues.len() as int).with(
            "  "@ + (if picked is Some && (picked->0 as int) < hues.len() {
                hues[picked->0 as int]@
            } else {
                "none"@
            }),
            Ink::Value,
        ),
        blank(),
        blank().with(" Enter apply   ← → colour   Esc cancel"@, Ink::Dim),
    ]
}

/// What a tab is to be called, and its colour. The old name is shown rather than
/// filled in: a name is changed because it says nothing.
pub fn rename_tab(was: &str, input: &str, hues: &Vec<String>, picked: Option<u8>) -> (r: Text)
    requires
        hues@.len() <= u8::MAX,
    ensures
        r@ == rename_lines(was@, input@, hues@, picked),
{
    let mut t = Text::new();
    let mut l = Line::new();
    l.put(" Now called ", Ink::Dim);
    l.put(was, Ink::Value);
    t.push(l);
    t.push(line_of(" The name and colour follow the tab into every cctop on this machine.", Ink::Dim));
    t.gap();
    t.push(field_line(input));
    t.gap();
    let mut l = line_of(" Colour ", Ink::Dim);
    put_swatch(&mut l, None, picked.is_none());
    let n: u8 = hues.len() as u8;
    let mut i: u8 = 0;
    while i < n
        invariant
            i <= n,
            l@ == swatches(picked, i as int),
        decreases n - i,
    {
        let here = match picked {
            Some(p) => p == i,
            None => false,
        };
        put_swatch(&mut l, Some(i), here);
        i += 1;
    }
    let named = match picked {
        Some(p) => if p < n {
            hues[p as usize].as_str()
        } else {
            "none"
        },
        None => "none",
    };
    l.put(cat("  ", named).as_str(), Ink::Value);
    t.push(l);
    t.gap();
    t.push(line_of(" Enter apply   ← → colour   Esc cancel", Ink::Dim));
    assert(t@ =~= rename_lines(was@, input@, hues@, picked));
    t
}

/// Rows of the list of tabs.
pub const ROWS: usize = 10;

/// The columns of a tab's name in the list.
pub const TITLE_W: usize = 38;

/// What a tab of the list is called.
pub open spec fn tab_title(tabs: Seq<Tab>, i: usize) -> Seq<char> {
    if 1 <= i <= tabs.len() {
        tabs[i - 1].name()
    } else {
        "Dashboard"@
    }
}

/// What is said of a tab: what it wants, or that it is the one on screen.
pub open spec fn tab_state(attention: Option<Attention>, current: bool) -> Option<(Seq<char>, Ink)> {
    match attention {
        Some(Attention::NeedsInput) => Some(("needs you"@, Ink::Mid)),
        Some(Attention::Idle) => Some(("idle"@, Ink::Low)),
        None => if current {
            Some(("current"@, Ink::Dim))
        } else {
            None
        },
    }
}

/// The colour of the tab at place `i` of the bar.
pub open spec fn painted(hues: Seq<Option<u8>>, i: usize) -> Option<u8> {
    if i < hues.len() {
        hues[i as int]
    } else {
        None
    }
}

/// A row of the list of tabs. A place past the ninth has no key to be labelled
/// with.
pub open spec fn tab_line(
    title: Seq<char>,
    i: usize,
    hue: Option<u8>,
    state: Option<(Seq<char>, Ink)>,
    here: bool,
) -> LineView {
    let l = blank().with(
        if here {
            " › "@
        } else {
            "   "@
        },
        Ink::Accent,
    ).with(
        right_in(
            if i < 9 {
                dec((i + 1) as nat)
            } else {
                ""@
            },
            2,
        ) + " "@,
        Ink::Dim,
    );
    let l = match hue {
        Some(h) => l.with("● "@, Ink::Hue(h)),
        None => l.with("  "@, Ink::Plain),
    };
    let l = l.with(left_in(elided(title, TITLE_W as int), TITLE_W as int), Ink::Value);
    (match state {
        Some((word, ink)) => l.with(" "@ + right_in(word, 9), ink),
        None => l,
    }).lit(here)
}

/// The first row of the list that is shown: the list slides under the cursor rather
/// than growing.
pub open spec fn list_start(total: int, cursor: int) -> int {
    let before = if cursor < 5 {
        0
    } else {
        cursor - 5
    };
    let most = if total < ROWS {
        0
    } else {
        total - ROWS
    };
    if before < most {
        before
    } else {
        most
    }
}

/// The cursor, within the list.
pub open spec fn list_cursor(total: int, cursor: usize) -> int {
    if cursor < total {
        cursor as int
    } else if total == 0 {
        0
    } else {
        total - 1
    }
}

/// The row under the cursor is shown.
pub proof fn the_row_picked_is_shown(total: int, cursor: usize)
    requires
        0 < total,
    ensures
        ({
            let at = list_cursor(total, cursor);
            let start = list_start(total, at);
            start <= at < start + ROWS && at < total && 0 <= start
        }),
{
}

/// The first `n` rows that are shown, from `start` on.
pub open spec fn tab_lines(
    app: App,
    matches: Seq<usize>,
    attention: Seq<Option<Attention>>,
    hues: Seq<Option<u8>>,
    start: int,
    cursor: int,
    n: int,
) -> Seq<LineView>
    decreases n,
{
    if n <= 0 {
        nothing()
    } else {
        let i = matches[start + n - 1];
        tab_lines(app, matches, attention, hues, start, cursor, n - 1).push(
            tab_line(
                tab_title(app.tabs@, i),
                i,
                painted(hues, i),
                tab_state(wanted(attention, i as int), i == app.tab),
                start + n - 1 == cursor,
            ),
        )
    }
}

/// The list of tabs a filter leaves.
pub open spec fn switch_lines(
    app: App,
    filter: Seq<char>,
    matches: Seq<usize>,
    attention: Seq<Option<Attention>>,
    hues: Seq<Option<u8>>,
    cursor: usize,
) -> Seq<LineView> {
    let total = matches.len() as int;
    let at = list_cursor(total, cursor);
    let start = list_start(total, at);
    let shown = if total - start < ROWS {
        total - start
    } else {
        ROWS as int
    };
    let top = nothing().push(caret(filter)).push(blank());
    let top = if start > 0 {
        top.push(blank().with("    … "@ + dec(start as nat) + " above"@, Ink::Dim))
    } else {
        top
    };
    let all = top + tab_lines(app, matches, attention, hues, start, at, shown);
    let all = if start + shown < total {
        all.push(blank().with("    … "@ + dec((total - start - shown) as nat) + " below"@, Ink::Dim))
    } else {
        all
    };
    let all = if total == 0 {
        all.push(blank().with("    No tab by that name"@, Ink::Dim))
    } else {
        all
    };
    all.push(blank()).push(blank().with(" Enter go   ↑↓ choose   Esc cancel"@, Ink::Dim))
}

fn tab_row(title: &str, i: usize, hue: Option<u8>, attention: Option<Attention>, current: bool, here: bool) -> (r: Line)
    ensures
        r@ == tab_line(title@, i, hue, tab_state(attention, current), here),
{
    let mut l = Line::new();
    l.put(
        if here {
            " › "
        } else {
            "   "
        },
        Ink::Accent,
    );
    let number = if i < 9 {
        decimal(i as u128 + 1)
    } else {
        "".to_owned()
    };
    let mut s = pad_left(number.as_str(), 2);
    s.append(" ");
    l.put(s.as_str(), Ink::Dim);
    match hue {
        Some(h) => {
            l.put("● ", Ink::Hue(h));
        },
        None => {
            l.put("  ", Ink::Plain);
        },
    }
    l.put(pad_right(elide(title, TITLE_W).as_str(), TITLE_W).as_str(), Ink::Value);
    match attention {
        Some(Attention::NeedsInput) => {
            l.put(cat(" ", pad_left("needs you", 9).as_str()).as_str(), Ink::Mid);
        },
        Some(Attention::Idle) => {
            l.put(cat(" ", pad_left("idle", 9).as_str()).as_str(), Ink::Low);
        },
        None => {
            if current {
                l.put(cat(" ", pad_left("current", 9).as_str()).as_str(), Ink::Dim);
            }
        },
    }
    l.light(here);
    l
}

impl App {
    /// The list of tabs a filter leaves: the whole bar in its order, the dashboard
    /// first. `matches` are the places of the bar the filter leaves, and what each
    /// place wants and is painted comes with them.
    pub fn switch_tab(
        &self,
        filter: &str,
        matches: &Vec<usize>,
        attention: &Vec<Option<Attention>>,
        hues: &Vec<Option<u8>>,
        cursor: usize,
    ) -> (r: Text)
        ensures
            r@ == switch_lines(*self, filter@, matches@, attention@, hues@, cursor),
    {
        let total: usize = matches.len();
        let at: usize = if cursor < total {
            cursor
        } else if total == 0 {
            0
        } else {
            total - 1
        };
        let before: usize = at.saturating_sub(5);
        let most: usize = total.saturating_sub(ROWS);
        let start: usize = if before < most {
            before
        } else {
            most
        };
        let shown: usize = if total - start < ROWS {
            total - start
        } else {
            ROWS
        };
        let mut t = Text::new();
        t.push(field_line(filter));
        t.gap();
        if start > 0 {
            let mut s = cat("    … ", decimal(start as u128).as_str());
            s.append(" above");
            t.push(line_of(s.as_str(), Ink::Dim));
        }
        let ghost top = t@;
        assert(top + tab_lines(*self, matches@, attention@, hues@, start as int, at as int, 0) =~= top);
        let mut k: usize = 0;
        while k < shown
            invariant
                k <= shown,
                total == matches@.len(),
                start + shown <= total,
                t@ == top + tab_lines(*self, matches@, attention@, hues@, start as int, at as int, k as int),
            decreases shown - k,
        {
            let i: usize = matches[start + k];
            let title = if i >= 1 && i <= self.tabs.len() {
                self.tabs[i - 1].title()
            } else {
                "Dashboard".to_owned()
            };
            let hue: Option<u8> = if i < hues.len() {
                hues[i]
            } else {
                None
            };
            let wants = if i < attention.len() {
                attention[i]
            } else {
                None
            };
            t.push(tab_row(title.as_str(), i, hue, wants, i == self.tab, start + k == at));
            assert(t@ =~= top + tab_lines(
                *self,
                matches@,
                attention@,
                hues@,
                start as int,
                at as int,
                k + 1,
            ));
            k += 1;
        }
        if start + shown < total {
            let mut s = cat("    … ", decimal((total - start - shown) as u128).as_str());
            s.append(" below");
            t.push(line_of(s.as_str(), Ink::Dim));
        }
        if total == 0 {
            t.push(line_of("    No tab by that name", Ink::Dim));
        }
        t.gap();
        t.push(line_of(" Enter go   ↑↓ choose   Esc cancel", Ink::Dim));
        t
    }
}

proof fn tabs_keep_their_rows(
    app: App,
    matches: Seq<usize>,
    attention: Seq<Option<Attention>>,
    hues: Seq<Option<u8>>,
    start: int,
    cursor: int,
    n: int,
    k: int,
)
    requires
        0 <= k < n,
        0 <= start,
        start + n <= matches.len(),
    ensures
        tab_lines(app, matches, attention, hues, start, cursor, n).len() == n,
        tab_lines(app, matches, attention, hues, start, cursor, n)[k] == tab_line(
            tab_title(app.tabs@, matches[start + k]),
            matches[start + k],
            painted(hues, matches[start + k]),
            tab_state(wanted(attention, matches[start + k] as int), matches[start + k] == app.tab),
            start + k == cursor,
        ),
    decreases n,
{
    assert(tab_lines(app, matches, attention, hues, start, cursor, 0).len() == 0);
    if n > 1 {
        tabs_keep_their_rows(app, matches, attention, hues, start, cursor, n - 1, if k < n - 1 {
            k
        } else {
            0
        });
    }
}

/// Every tab in sight has its row, by its own place, name and colour, with what that
/// tab wants; the one on screen is said to be, where it wants nothing, and the one the
/// cursor is on is lit.
pub proof fn a_listed_tab_is_itself(
    app: App,
    matches: Seq<usize>,
    attention: Seq<Option<Attention>>,
    hues: Seq<Option<u8>>,
    start: int,
    cursor: int,
    n: int,
    k: int,
)
    requires
        0 <= k < n,
        0 <= start,
        start + n <= matches.len(),
        1 <= matches[start + k] <= app.tabs@.len(),
    ensures
        ({
            let i = matches[start + k];
            let line = tab_lines(app, matches, attention, hues, start, cursor, n)[k];
            let wants = if i < attention.len() {
                attention[i as int]
            } else {
                None
            };
            &&& i < 9 ==> line.spans[1].text == right_in(dec((i + 1) as nat), 2) + " "@
            &&& line.spans[3].text == left_in(elided(app.tabs@[i - 1].name(), TITLE_W as int), TITLE_W as int)
            &&& i < hues.len() && hues[i as int] is Some ==> line.spans[2].ink == Ink::Hue(hues[i as int]->0)
            &&& wants == Some(Attention::NeedsInput) ==> line.spans[4].text == " "@ + right_in("needs you"@, 9)
            &&& wants == Some(Attention::Idle) ==> line.spans[4].text == " "@ + right_in("idle"@, 9)
            &&& wants is None && i == app.tab ==> line.spans[4].text == " "@ + right_in("current"@, 9)
            &&& wants is None && i != app.tab ==> line.spans.len() == 4
            &&& line.selected == (start + k == cursor)
        }),
{
    tabs_keep_their_rows(app, matches, attention, hues, start, cursor, n, k);
}

/// The tabs that are in sight and those that are said to be above and below are all
/// there are.
pub proof fn every_tab_is_shown_or_counted(
    app: App,
    filter: Seq<char>,
    matches: Seq<usize>,
    attention: Seq<Option<Attention>>,
    hues: Seq<Option<u8>>,
    cursor: usize,
)
    ensures
        ({
            let t = switch_lines(app, filter, matches, attention, hues, cursor);
            let total = matches.len() as int;
            let start = list_start(total, list_cursor(total, cursor));
            let shown = if total - start < ROWS {
                total - start
            } else {
                ROWS as int
            };
            let below = total - start - shown;
            &&& start > 0 ==> t[2].spans[0].text == "    … "@ + dec(start as nat) + " above"@
            &&& below > 0 ==> t[t.len() - 3].spans[0].text == "    … "@ + dec(below as nat) + " below"@
            &&& total == 0 ==> t[t.len() - 3].spans[0].text == "    No tab by that name"@
            &&& t[0].spans[1].text == filter
        }),
{
    let total = matches.len() as int;
    let at = list_cursor(total, cursor);
    let start = list_start(total, at);
    let shown = if total - start < ROWS {
        total - start
    } else {
        ROWS as int
    };
    if shown > 0 {
        tabs_keep_their_rows(app, matches, attention, hues, start, at, shown, 0);
    } else {
        assert(tab_lines(app, matches, attention, hues, start, at, shown).len() == 0);
    }
}

} // verus!
