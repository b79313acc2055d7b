//! The settings, and what the table is sorted and filtered by.

use vstd::prelude::*;

use crate::app::{App, ColumnId};
use crate::figures::{short_path, tildify};
use crate::geometry::Rect;
use crate::modals::{on_screen, scrollable_modal, Scrolling};
use crate::settings::{Binding, Config, Setting};
use crate::styled::{blank, line_of, nothing, Ink, Line, LineView, Text};
use crate::text::{cat, count, left_in, lines, lines_of, pad_right, same, trim, trimmed, words};

verus! {

/// What is put behind the text that is being typed.
pub open spec fn caret(text: Seq<char>) -> LineView {
    blank().with(" > "@, Ink::Plain).with_bold(text, Ink::Value).with("█"@, Ink::Accent)
}

/// A field that is being typed into.
pub fn field_line(text: &str) -> (r: Line)
    ensures
        r@ == caret(text@),
{
    let mut l = Line::new();
    l.put(" > ", Ink::Plain);
    l.put_bold(text, Ink::Value);
    l.put("█", Ink::Accent);
    l
}

/// What stands for a value on the cursor's row: the key that is waited for, what
/// is being typed, or the value itself.
pub open spec fn shown_value(config: Config, here: bool, value: Seq<char>) -> Seq<char> {
    if here && config.capture {
        "press a key… (Esc cancels)"@
    } else if here && config.input is Some {
        config.input->0@ + "█"@
    } else {
        value
    }
}

/// A row of the settings, marked where the file is what set it.
pub open spec fn setting_line(
    config: Config,
    row: int,
    name: Seq<char>,
    value: Seq<char>,
    set: bool,
    what: Seq<char>,
) -> LineView {
    let here = row == config.cursor;
    let shown = left_in(shown_value(config, here, value), 14);
    let l = blank().with("  "@ + left_in(name, 18), Ink::Plain);
    (if set {
        l.with_bold(shown, Ink::Accent).with(" * "@, Ink::Dim)
    } else {
        l.with(shown, Ink::Accent).with("   "@, Ink::Dim)
    }).with(what, Ink::Dim).lit(here)
}

fn setting_row(config: &Config, row: usize, name: &str, value: &str, set: bool, what: &str) -> (r: Line)
    ensures
        r@ == setting_line(*config, row as int, name@, value@, set, what@),
{
    let here = row == config.cursor;
    let shown = if here && config.capture {
        "press a key… (Esc cancels)".to_owned()
    } else {
        match &config.input {
            Some(input) => if here {
                cat(input.as_str(), "█")
            } else {
                value.to_owned()
            },
            None => value.to_owned(),
        }
    };
    let shown = pad_right(shown.as_str(), 14);
    let mut l = Line::new();
    l.put(cat("  ", pad_right(name, 18).as_str()).as_str(), Ink::Plain);
    if set {
        l.put_bold(shown.as_str(), Ink::Accent);
        l.put(" * ", Ink::Dim);
    } else {
        l.put(shown.as_str(), Ink::Accent);
        l.put("   ", Ink::Dim);
    }
    l.put(what, Ink::Dim);
    l.light(here);
    l
}

/// What stands over the rows: the file, and what it says that could not be taken.
pub open spec fn settings_head(config: Config, home: Seq<char>, n: int) -> Seq<LineView>
    decreases n,
{
    if n <= 0 {
        nothing().push(
            blank().with("  File "@, Ink::Dim).with(
                match config.file {
                    Some(f) => short_path(f@, home),
                    None => ""@,
                },
                Ink::Plain,
            ),
        ).push(blank().with("  * set in the file, rather than left at the default"@, Ink::Dim))
    } else {
        settings_head(config, home, n - 1).push(
            blank().with("  ! "@ + config.settings.problems@[n - 1]@, Ink::Failed),
        )
    }
}

/// The rows of the first `n` settings.
pub open spec fn entry_lines(config: Config, n: int) -> Seq<LineView>
    decreases n,
{
    if n <= 0 {
        nothing()
    } else {
        let e = config.settings.entries@[n - 1];
        entry_lines(config, n - 1).push(setting_line(config, n - 1, e.name@, e.value@, e.set, e.what@))
    }
}

/// The rows of the first `n` keys. A key is marked where it is not the one it has
/// by default.
pub open spec fn binding_lines(config: Config, n: int) -> Seq<LineView>
    decreases n,
{
    if n <= 0 {
        nothing()
    } else {
        let b = config.settings.bindings@[n - 1];
        binding_lines(config, n - 1).push(
            setting_line(
                config,
                config.settings.entries@.len() + n - 1,
                b.action@,
                b.key@,
                b.key@ != b.default@,
                b.what@,
            ),
        )
    }
}

/// The settings panel.
pub open spec fn settings_lines(config: Config, home: Seq<char>) -> Seq<LineView> {
    let s = config.settings;
    let top = settings_head(config, home, s.problems@.len() as int).push(blank()).push(
        blank().with("[settings]"@, Ink::Title),
    );
    let mid = (top + entry_lines(config, s.entries@.len() as int)).push(blank()).push(
        blank().with("[keys]  on the session table"@, Ink::Title),
    );
    (mid + binding_lines(config, s.bindings@.len() as int)).push(blank()).push(
        blank().with("  ↵ change   ⌫ reset   e open in your editor   Esc close"@, Ink::Dim),
    )
}

/// The line the cursor is on.
pub open spec fn cursor_line(config: Config) -> int {
    let s = config.settings;
    let first = s.problems@.len() + 4;
    if config.cursor < s.entries@.len() {
        first + config.cursor
    } else if config.cursor < s.entries@.len() + s.bindings@.len() {
        first + config.cursor + 2
    } else {
        0
    }
}

proof fn lines_counted(config: Config, home: Seq<char>, n: int)
    requires
        0 <= n,
    ensures
        settings_head(config, home, n).len() == n + 2,
        entry_lines(config, n).len() == n,
        binding_lines(config, n).len() == n,
    decreases n,
{
    if n > 0 {
        lines_counted(config, home, n - 1);
    }
}

/// How many lines the settings panel has.
pub open spec fn settings_total(config: Config) -> int {
    config.settings.problems@.len() as int + config.settings.entries@.len() + config.settings.bindings@.len() + 8
}

/// The rows the panel has for its lines.
pub open spec fn settings_rows(total: int, height: u16) -> int {
    let most = if height < 2 {
        0
    } else {
        height - 2
    };
    let box_rows = if total + 2 < most {
        total + 2
    } else {
        most
    };
    if box_rows < 3 {
        1
    } else {
        box_rows - 2
    }
}

/// Where the panel is scrolled to next: far enough for the cursor to be in sight.
/// The first row brings the file's name and what is wrong with it back.
pub open spec fn scroll_after(cursor: usize, at: int, scroll: u16, rows: int) -> int {
    if cursor == 0 {
        0
    } else if at < scroll {
        at
    } else if at >= scroll + rows {
        at + 1 - rows
    } else {
        scroll as int
    }
}

/// The cursor is in sight on every row but the first, which shows the panel's top.
pub proof fn the_cursor_stays_in_sight(cursor: usize, at: int, scroll: u16, rows: int)
    requires
        0 <= at,
        1 <= rows,
    ensures
        cursor > 0 ==> scroll_after(cursor, at, scroll, rows) <= at < scroll_after(cursor, at, scroll, rows) + rows,
        cursor == 0 ==> scroll_after(cursor, at, scroll, rows) == 0,
{
}

/// The settings panel.
pub fn settings_text(config: &Config, home: &str) -> (r: Text)
    requires
        settings_total(*config) <= u16::MAX,
    ensures
        r@ == settings_lines(*config, home@),
        r@.len() == settings_total(*config),
{
    let s = &config.settings;
    let mut t = Text::new();
    let mut l = Line::new();
    l.put("  File ", Ink::Dim);
    match &config.file {
        Some(f) => {
            l.put(tildify(f.as_str(), home).as_str(), Ink::Plain);
        },
        None => {
            l.put("", Ink::Plain);
        },
    }
    t.push(l);
    t.push(line_of("  * set in the file, rather than left at the default", Ink::Dim));
    let mut i: usize = 0;
    while i < s.problems.len()
        invariant
            i <= s.problems@.len(),
            s == &config.settings,
            t@ == settings_head(*config, home@, i as int),
        decreases s.problems@.len() - i,
    {
        t.push(line_of(cat("  ! ", s.problems[i].as_str()).as_str(), Ink::Failed));
        i += 1;
    }
    t.gap();
    t.push(line_of("[settings]", Ink::Title));
    let ghost top = t@;
    assert(top + entry_lines(*config, 0) =~= top);
    let mut i: usize = 0;
    while i < s.entries.len()
        invariant
            i <= s.entries@.len(),
            s == &config.settings,
            t@ == top + entry_lines(*config, i as int),
        decreases s.entries@.len() - i,
    {
        let e = &s.entries[i];
        t.push(setting_row(config, i, e.name.as_str(), e.value.as_str(), e.set, e.what.as_str()));
        assert(t@ =~= top + entry_lines(*config, i + 1));
        i += 1;
    }
    t.gap();
    t.push(line_of("[keys]  on the session table", Ink::Title));
    let ghost mid = t@;
    assert(mid + binding_lines(*config, 0) =~= mid);
    let n: usize = s.entries.len();
    let mut i: usize = 0;
    while i < s.bindings.len()
        invariant
            i <= s.bindings@.len(),
            n == s.entries@.len(),
            n + s.bindings@.len() <= u16::MAX,
            s == &config.settings,
            t@ == mid + binding_lines(*config, i as int),
        decreases s.bindings@.len() - i,
    {
        let b = &s.bindings[i];
        let set = !same(b.key.as_str(), b.default.as_str());
        t.push(setting_row(config, n + i, b.action.as_str(), b.key.as_str(), set, b.what.as_str()));
        assert(t@ =~= mid + binding_lines(*config, i + 1));
        i += 1;
    }
    t.gap();
    t.push(line_of("  ↵ change   ⌫ reset   e open in your editor   Esc close", Ink::Dim));
    proof {
        lines_counted(*config, home@, s.problems@.len() as int);
        lines_counted(*config, home@, s.entries@.len() as int);
        lines_counted(*config, home@, s.bindings@.len() as int);
    }
    t
}

impl App {
    /// The settings panel, scrolled so that the cursor is in sight.
    pub fn settings_panel(&mut self, area: Rect, home: &str) -> (r: (Text, Scrolling))
        requires
            on_screen(area),
            settings_total(old(self).config) + 2 <= u16::MAX,
        ensures
            ({
                let c = old(self).config;
                let total = settings_total(c);
                let at = scroll_after(c.cursor, cursor_line(c), c.scroll, settings_rows(total, area.height));
                &&& r.0@ == settings_lines(c, home@)
                &&& r.1.shows(area, total, 96, at as u16)
                &&& *final(self) == (App { config: Config { scroll: at as u16, ..c }, ..*old(self) })
            }),
    {
        let text = settings_text(&self.config, home);
        let total: u16 = text.len() as u16;
        let s = &self.config.settings;
        let (p, e, b): (usize, usize, usize) = (s.problems.len(), s.entries.len(), s.bindings.len());
        let cursor: usize = self.config.cursor;
        let at: u16 = if cursor < e {
            (p + 4 + cursor) as u16
        } else if cursor < e + b {
            (p + 6 + cursor) as u16
        } else {
            0
        };
        let most: u16 = area.height.saturating_sub(2);
        let rows: u16 = if total + 2 < most {
            total + 2
        } else {
            most
        };
        let rows: u16 = if rows < 3 {
            1
        } else {
            rows - 2
        };
        let scroll: u16 = self.config.scroll;
        let next: u16 = if cursor == 0 {
            0
        } else if at < scroll {
            at
        } else if at as u32 >= scroll as u32 + rows as u32 {
            at + 1 - rows
        } else {
            scroll
        };
        self.config.scroll = next;
        (text, scrollable_modal(area, total, 96, next))
    }
}

/// A column the table can be sorted by.
pub struct ColumnHead {
    pub id: ColumnId,
    pub label: String,
    pub desc: String,
}

/// The first `n` columns, the one the table is sorted by with an arrow.
pub open spec fn column_lines(columns: Seq<ColumnHead>, sort: ColumnId, asc: bool, cursor: usize, n: int) -> Seq<LineView>
    decreases n,
{
    if n <= 0 {
        nothing()
    } else {
        let c = columns[n - 1];
        let active = c.id == sort;
        let text = left_in(
            " "@ + trimmed(c.label@) + (if active {
                if asc {
                    " ▲"@
                } else {
                    " ▼"@
                }
            } else {
                ""@
            }),
            26,
        );
        column_lines(columns, sort, asc, cursor, n - 1).push(
            blank().with(
                text,
                if n - 1 == cursor {
                    Ink::Selected
                } else if active {
                    Ink::Accent
                } else {
                    Ink::Plain
                },
            ),
        )
    }
}

/// The first `n` lines of what a column is.
pub open spec fn described(parts: Seq<Seq<char>>, n: int) -> Seq<LineView>
    decreases n,
{
    if n <= 0 {
        nothing()
    } else {
        described(parts, n - 1).push(blank().with(" "@ + parts[n - 1], Ink::Dim))
    }
}

/// What the table can be sorted by, and what the column under the cursor is: several
/// are not obvious from their names.
pub fn sort_by(columns: &Vec<ColumnHead>, sort: ColumnId, asc: bool, cursor: usize) -> (r: Text)
    requires
        cursor < columns@.len(),
    ensures
        ({
            let parts = lines_of(columns@[cursor as int].desc@);
            r@ == ((column_lines(columns@, sort, asc, cursor, columns@.len() as int)).push(blank()) + described(
                parts,
                parts.len() as int,
            )).push(blank()).push(blank().with(" Enter select   Esc cancel"@, Ink::Dim))
        }),
{
    let mut t = Text::new();
    let mut i: usize = 0;
    while i < columns.len()
        invariant
            i <= columns@.len(),
            t@ == column_lines(columns@, sort, asc, cursor, i as int),
        decreases columns@.len() - i,
    {
        let c = &columns[i];
        let active = c.id == sort;
        let mut s = cat(" ", trim(c.label.as_str()).as_str());
        s.append(
            if active {
                if asc {
                    " ▲"
                } else {
                    " ▼"
                }
            } else {
                ""
            },
        );
        let ink = if i == cursor {
            Ink::Selected
        } else if active {
            Ink::Accent
        } else {
            Ink::Plain
        };
        t.push(line_of(pad_right(s.as_str(), 26).as_str(), ink));
        i += 1;
    }
    t.gap();
    let ghost top = t@;
    let parts = lines(columns[cursor].desc.as_str());
    assert(top + described(words(parts@), 0) =~= top);
    let mut i: usize = 0;
    while i < parts.len()
        invariant
            i <= parts@.len(),
            t@ == top + described(words(parts@), i as int),
        decreases parts@.len() - i,
    {
        t.push(line_of(cat(" ", parts[i].as_str()).as_str(), Ink::Dim));
        assert(t@ =~= top + described(words(parts@), i + 1));
        i += 1;
    }
    t.gap();
    t.push(line_of(" Enter select   Esc cancel", Ink::Dim));
    t
}

/// What an age rows can be filtered by is called.
pub open spec fn age_name(age: Option<String>) -> Seq<char> {
    match age {
        Some(a) => a@,
        None => "No filter"@,
    }
}

/// The first `n` of the ages rows can be filtered by.
pub open spec fn age_lines(ages: Seq<Option<String>>, active: usize, cursor: usize, n: int) -> Seq<LineView>
    decreases n,
{
    if n <= 0 {
        nothing()
    } else {
        age_lines(ages, active, cursor, n - 1).push(
            (if n - 1 == active {
                blank().with(" ● "@, Ink::Low)
            } else {
                blank().with(" ○ "@, Ink::Dimmer)
            }).with(
                left_in(age_name(ages[n - 1]), 22),
                if n - 1 == cursor {
                    Ink::Selected
                } else {
                    Ink::Plain
                },
            ),
        )
    }
}

/// The ages rows can be filtered by.
pub fn age_filter(ages: &Vec<Option<String>>, active: usize, cursor: usize) -> (r: Text)
    ensures
        r@ == age_lines(ages@, active, cursor, ages@.len() as int).push(
            blank().with(" ↑/↓  Enter apply  Esc cancel"@, Ink::Dim),
        ),
{
    let mut t = Text::new();
    let mut i: usize = 0;
    while i < ages.len()
        invariant
            i <= ages@.len(),
            t@ == age_lines(ages@, active, cursor, i as int),
        decreases ages@.len() - i,
    {
        let mut l = Line::new();
        if i == active {
            l.put(" ● ", Ink::Low);
        } else {
            l.put(" ○ ", Ink::Dimmer);
        }
        let ink = if i == cursor {
            Ink::Selected
        } else {
            Ink::Plain
        };
        let name = match &ages[i] {
            Some(a) => a.as_str(),
            None => "No filter",
        };
        l.put(pad_right(name, 22).as_str(), ink);
        t.push(l);
        i += 1;
    }
    t.push(line_of(" ↑/↓  Enter apply  Esc cancel", Ink::Dim));
    t
}

/// What a row has to have cost, as it is typed.
pub open spec fn cost_filter_lines(input: Seq<char>) -> Seq<LineView> {
    seq![
        blank().with(" Only show sessions whose total cost is at least:"@, Ink::Dim),
        blank().with(" $ "@, Ink::Plain).with_bold(
            if input.len() == 0 {
                "0.00"@
            } else {
                input
            },
            Ink::Value,
        ).with("█"@, Ink::Accent),
        blank(),
        blank().with(" 0 clears the filter   Enter apply   Esc cancel"@, Ink::Dim),
    ]
}

/// What a row has to have cost, as it is typed.
pub fn cost_filter(input: &str) -> (r: Text)
    ensures
        r@ == cost_filter_lines(input@),
{
    let mut t = Text::new();
    t.push(line_of(" Only show sessions whose total cost is at least:", Ink::Dim));
    let mut l = Line::new();
    l.put(" $ ", Ink::Plain);
    if count(input) == 0 {
        l.put_bold("0.00", Ink::Value);
    } else {
        l.put_bold(input, Ink::Value);
    }
    l.put("█", Ink::Accent);
    t.push(l);
    t.gap();
    t.push(line_of(" 0 clears the filter   Enter apply   Esc cancel", Ink::Dim));
    assert(t@ =~= cost_filter_lines(input@));
    t
}

/// What is typed into a session's terminal.
pub open spec fn send_lines(label: Seq<char>, input: Seq<char>) -> Seq<LineView> {
    seq![
        blank().with(" "@ + label, Ink::Value),
        blank().with(" Typed into the terminal running this agent, then submitted."@, Ink::Dim),
        blank().with(" Needs the agent under `cctop run`, rmux, or cctop as root."@, Ink::Dim),
        blank(),
        caret(input),
        blank(),
        blank().with(" Enter send   F9 paste an image   Esc cancel"@, Ink::Dim),
    ]
}

impl App {
    /// What is typed into the selected session's terminal.
    pub fn send_keys(&self, input: &str) -> (r: Option<Text>)
        ensures
            match r {
                Some(t) => self.session_at() is Some && t@ == send_lines(self.session_at()->0.label(), input@),
                None => self.session_at() is None,
            },
    {
        let s = match self.selected_session() {
            Some(s) => s,
            None => {
                return None;
            },
        };
        let mut t = Text::new();
        t.push(line_of(cat(" ", s.display_label()).as_str(), Ink::Value));
        t.push(line_of(" Typed into the terminal running this agent, then submitted.", Ink::Dim));
        t.push(line_of(" Needs the agent under `cctop run`, rmux, or cctop as root.", Ink::Dim));
        t.gap();
        t.push(field_line(input));
        t.gap();
        t.push(line_of(" Enter send   F9 paste an image   Esc cancel", Ink::Dim));
        assert(t@ =~= send_lines(s.label(), input@));
        Some(t)
    }
}

proof fn entries_keep_their_rows(config: Config, n: int, i: int)
    requires
        0 <= i < n <= config.settings.entries@.len(),
    ensures
        ({
            let e = config.settings.entries@[i];
            &&& entry_lines(config, n).len() == n
            &&& entry_lines(config, n)[i] == setting_line(config, i, e.name@, e.value@, e.set, e.what@)
        }),
    decreases n,
{
    assert(entry_lines(config, 0).len() == 0);
    if n > 1 {
        entries_keep_their_rows(config, n - 1, if i < n - 1 {
            i
        } else {
            0
        });
    }
}

proof fn bindings_keep_their_rows(config: Config, n: int, i: int)
    requires
        0 <= i < n <= config.settings.bindings@.len(),
    ensures
        ({
            let b = config.settings.bindings@[i];
            &&& binding_lines(config, n).len() == n
            &&& binding_lines(config, n)[i] == setting_line(
                config,
                config.settings.entries@.len() + i,
                b.action@,
                b.key@,
                b.key@ != b.default@,
                b.what@,
            )
        }),
    decreases n,
{
    assert(binding_lines(config, 0).len() == 0);
    if n > 1 {
        bindings_keep_their_rows(config, n - 1, if i < n - 1 {
            i
        } else {
            0
        });
    }
}

proof fn the_head_is_as_long(config: Config, home: Seq<char>, n: int)
    requires
        0 <= n,
    ensures
        settings_head(config, home, n).len() == n + 2,
    decreases n,
{
    if n > 0 {
        the_head_is_as_long(config, home, n - 1);
    }
}

/// Every setting has a row with its own name and value, marked where the file has set
/// it, and every action one with its own key, marked where that is not its default; and
/// the row the cursor is on is the line it is said to be on.
pub proof fn a_setting_has_its_own_row(config: Config, home: Seq<char>, i: int)
    ensures
        0 <= i < config.settings.entries@.len() ==> {
            let e = config.settings.entries@[i];
            let line = settings_lines(config, home)[config.settings.problems@.len() + 4 + i];
            &&& line.spans[0].text == "  "@ + left_in(e.name@, 18)
            &&& i != config.cursor ==> line.spans[1].text == left_in(e.value@, 14)
            &&& e.set ==> line.spans[2].text == " * "@
            &&& !e.set ==> line.spans[2].text == "   "@
            &&& line.spans[3].text == e.what@
            &&& line.selected == (i == config.cursor)
            &&& i == config.cursor ==> cursor_line(config) == config.settings.problems@.len() + 4 + i
        },
        0 <= i < config.settings.bindings@.len() ==> {
            let b = config.settings.bindings@[i];
            let at = config.settings.entries@.len() + i;
            let line = settings_lines(config, home)[config.settings.problems@.len() + 6 + at];
            &&& line.spans[0].text == "  "@ + left_in(b.action@, 18)
            &&& at != config.cursor ==> line.spans[1].text == left_in(b.key@, 14)
            &&& b.key@ != b.default@ ==> line.spans[2].text == " * "@
            &&& b.key@ == b.default@ ==> line.spans[2].text == "   "@
            &&& line.selected == (at == config.cursor)
            &&& at == config.cursor ==> cursor_line(config) == config.settings.problems@.len() + 6 + at
        },
{
    let s = config.settings;
    let p = s.problems@.len() as int;
    the_head_is_as_long(config, home, p);
    let n = s.entries@.len() as int;
    let m = s.bindings@.len() as int;
    if n > 0 {
        entries_keep_their_rows(config, n, if 0 <= i < n {
            i
        } else {
            0
        });
    } else {
        assert(entry_lines(config, 0).len() == 0);
    }
    let head = settings_head(config, home, p).push(blank()).push(blank().with("[settings]"@, Ink::Title));
    let mid = (head + entry_lines(config, n)).push(blank()).push(
        blank().with("[keys]  on the session table"@, Ink::Title),
    );
    let all = settings_lines(config, home);
    assert(mid.len() == p + 6 + n);
    if 0 <= i < n {
        assert(all[p + 4 + i] == entry_lines(config, n)[i]);
    }
    if 0 <= i < m {
        bindings_keep_their_rows(config, m, i);
        assert(all[p + 6 + n + i] == binding_lines(config, m)[i]);
    }
}

proof fn columns_keep_their_rows(columns: Seq<ColumnHead>, sort: ColumnId, asc: bool, cursor: usize, n: int, i: int)
    requires
        0 <= i < n <= columns.len(),
    ensures
        ({
            let lines = column_lines(columns, sort, asc, cursor, n);
            &&& lines.len() == n
            &&& lines[i] == column_lines(columns, sort, asc, cursor, i + 1)[i]
            &&& column_lines(columns, sort, asc, cursor, i).len() == i
        }),
    decreases n,
{
    assert(column_lines(columns, sort, asc, cursor, 0).len() == 0);
    if n > 1 {
        columns_keep_their_rows(columns, sort, asc, cursor, n - 1, if i < n - 1 {
            i
        } else {
            0
        });
    }
}

/// Every column has its row, by its own name; the one the table is sorted by, and no
/// other, has the arrow of the way it is sorted.
pub proof fn a_column_has_its_own_row(columns: Seq<ColumnHead>, sort: ColumnId, asc: bool, cursor: usize, i: int)
    requires
        0 <= i < columns.len(),
    ensures
        ({
            let line = column_lines(columns, sort, asc, cursor, columns.len() as int)[i];
            &&& columns[i].id == sort && asc ==> line.spans[0].text == left_in(" "@ + trimmed(columns[i].label@) + " ▲"@, 26)
            &&& columns[i].id == sort && !asc ==> line.spans[0].text == left_in(" "@ + trimmed(columns[i].label@) + " ▼"@, 26)
            &&& columns[i].id != sort ==> line.spans[0].text == left_in(" "@ + trimmed(columns[i].label@) + ""@, 26)
            &&& i == cursor <==> line.spans[0].ink == Ink::Selected
        }),
{
    columns_keep_their_rows(columns, sort, asc, cursor, columns.len() as int, i);
}

proof fn ages_keep_their_rows(ages: Seq<Option<String>>, active: usize, cursor: usize, n: int, i: int)
    requires
        0 <= i < n <= ages.len(),
    ensures
        ({
            let line = age_lines(ages, active, cursor, n)[i];
            &&& age_lines(ages, active, cursor, n).len() == n
            &&& i == active ==> line.spans[0].text == " ● "@
            &&& i != active ==> line.spans[0].text == " ○ "@
            &&& ages[i] matches Some(a) ==> line.spans[1].text == left_in(a@, 22)
            &&& ages[i] is None ==> line.spans[1].text == left_in("No filter"@, 22)
            &&& i == cursor <==> line.spans[1].ink == Ink::Selected
        }),
    decreases n,
{
    assert(age_lines(ages, active, cursor, 0).len() == 0);
    if n > 1 {
        ages_keep_their_rows(ages, active, cursor, n - 1, if i < n - 1 {
            i
        } else {
            0
        });
    }
}

/// Every age has its row, by its own name; the one that is set is marked, and the one
/// the cursor is on is lit.
pub proof fn an_age_has_its_own_row(ages: Seq<Option<String>>, active: usize, cursor: usize, i: int)
    requires
        0 <= i < ages.len(),
    ensures
        ({
            let line = age_lines(ages, active, cursor, ages.len() as int)[i];
            &&& i == active ==> line.spans[0].text == " ● "@
            &&& i != active ==> line.spans[0].text == " ○ "@
            &&& ages[i] matches Some(a) ==> line.spans[1].text == left_in(a@, 22)
            &&& ages[i] is None ==> line.spans[1].text == left_in("No filter"@, 22)
            &&& i == cursor <==> line.spans[1].ink == Ink::Selected
        }),
{
    ages_keep_their_rows(ages, active, cursor, ages.len() as int, i);
}

/// A value is shown as it is, but on the cursor's row a key that is waited for and a
/// text that is being typed are shown in its place.
pub proof fn what_is_being_typed_is_shown(config: Config, value: Seq<char>)
    ensures
        shown_value(config, false, value) == value,
        config.capture ==> shown_value(config, true, value) == "press a key… (Esc cancels)"@,
        !config.capture && config.input is Some ==> shown_value(config, true, value) == config.input->0@ + "█"@,
        !config.capture && config.input is None ==> shown_value(config, true, value) == value,
{
}

} // verus!
