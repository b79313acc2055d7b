//! The help page.

use vstd::prelude::*;

use crate::app::App;
use crate::footer::Desk;
use crate::geometry::Rect;
use crate::model::Names;
use crate::modals::{on_screen, scrollable_modal, Scrolling};
use crate::styled::{blank, line_of, Ink, Line, LineView, Text};
use crate::text::{between, left_in, pad_right};

verus! {

/// How many lines the page has.
pub const LINES: usize = 117;

/// What each line is: a heading `#`, a key `-`, a key whose text names the agent
/// (`+` its account, `=` its panes), a note `~`, or nothing.
pub const KINDS: [char; 117] = [
    '#',
    '-',
    '-',
    '-',
    '-',
    '+',
    ' ',
    '#',
    '-',
    '-',
    '-',
    '-',
    '-',
    '-',
    '-',
    ' ',
    '#',
    '-',
    '-',
    '-',
    '-',
    '-',
    '-',
    '-',
    '-',
    '-',
    ' ',
    '#',
    '-',
    '-',
    '-',
    '-',
    ' ',
    '#',
    '-',
    '-',
    '-',
    '-',
    '-',
    '-',
    '-',
    '-',
    '~',
    ' ',
    '#',
    '-',
    '-',
    '-',
    '-',
    '-',
    '-',
    '-',
    '-',
    ' ',
    '#',
    '-',
    '-',
    '-',
    '-',
    '-',
    '-',
    '-',
    '-',
    '-',
    '-',
    '-',
    '-',
    '-',
    '-',
    '-',
    '-',
    '-',
    '=',
    '-',
    ' ',
    '#',
    '-',
    '-',
    '-',
    '-',
    '-',
    '-',
    '-',
    '-',
    '-',
    '-',
    '-',
    '-',
    '-',
    '-',
    '-',
    ' ',
    '#',
    '-',
    '-',
    '-',
    ' ',
    '#',
    '-',
    '-',
    '-',
    '-',
    '-',
    '-',
    '-',
    '-',
    ' ',
    '#',
    '-',
    '-',
    '-',
    '~',
    ' ',
    '~',
    '~',
    ' ',
    '~',
];

/// The key on each line.
pub const KEYS: [&'static str; 117] = [
    "",
    "Enter",
    "?  F1",
    ",",
    "q  F10",
    "+",
    "",
    "",
    "↑/k  ↓/j",
    "PgUp / PgDn",
    "Ctrl+U / Ctrl+D",
    "g / G  Home / End",
    "n / N",
    "b",
    "f",
    "",
    "",
    "a",
    "R",
    "s",
    "O",
    "i",
    "y",
    "e / E",
    "d",
    "Ctrl+K",
    "",
    "",
    "Space",
    "U",
    "D",
    "K",
    "",
    "",
    "/  F3",
    "  Tab",
    "  ↑ / ↓",
    "S  F6  >  <",
    "F7",
    "#",
    "`",
    "Esc",
    "",
    "",
    "",
    "←  →",
    "Tab / Shift+Tab",
    "1 – 9",
    "Shift+↑ / ↓",
    "Shift+Home / End",
    "[ / ]",
    "L",
    "v",
    "",
    "",
    "t or Alt+n",
    "Alt+v / Alt+s",
    "Alt+← / →",
    "Alt+1 – 9",
    "Alt+t",
    "Alt+b",
    "Alt+Shift+← / →",
    "Right-click / Alt+r",
    "Alt+o",
    "Alt+w",
    "Alt+Shift+W",
    "Alt+Shift+R",
    "",
    "Ctrl+R",
    "",
    "F9",
    "Ctrl+V",
    "Home / End",
    "F12",
    "",
    "",
    "",
    "",
    "",
    "F9",
    "over ssh",
    "",
    "",
    "",
    "",
    "",
    "",
    "",
    "",
    "",
    "",
    "",
    "",
    "Right-click a row",
    "Click a footer hint",
    "Click [y] / [n]",
    "",
    "",
    "A",
    "w",
    "W",
    "B",
    "o",
    "c",
    "h  F8",
    "r  F5",
    "",
    "",
    "CCTOP_THEME",
    "NO_COLOR",
    "CCTOP_COLUMNS_HIDE",
    "",
    "",
    "",
    "",
    "",
    "",
];

/// What each line says.
pub const TEXTS: [&'static str; 117] = [
    "Start here",
    "Everything you can do to this row, in one menu",
    "This page",
    "Settings and keybinds, and the file that holds them",
    "Quit",
    "",
    "",
    "Navigation",
    "Move between sessions",
    "Page through the list",
    "Half a page up / down",
    "Jump to first / last",
    "Next / previous search match (wraps)",
    "Jump to the session that rang last",
    "Follow mode: keep the selection centered",
    "",
    "Acting on the selected session",
    "Open its terminal in a tab",
    "Resume it in a tab of its own",
    "Type a line into its terminal",
    "Hand its context off to a different agent",
    "Read its conversation (works on remote rows)",
    "Copy resume command or transcript path",
    "Show its subagents / all subagents",
    "Delete it (only when it is not running)",
    "Terminate it",
    "",
    "Several at once",
    "Mark / unmark the selected session",
    "Clear all marks",
    "Delete all marked sessions",
    "Terminate all marked live sessions",
    "",
    "Filter and sort",
    "Filter by label, project, branch, model, id",
    "Search inside the transcripts as well",
    "Bring back an earlier search",
    "Sort by any column",
    "Filter by age (1d / 1w / 1mo)",
    "Cost floor: only sessions costing ≥ $X",
    "Show only running sessions",
    "Clear one filter layer per press",
    "  Clicking a column header sorts by it too.",
    "",
    "Bottom panels",
    "Move between bottom panels",
    "Same, either direction",
    "Jump to a panel directly",
    "Scroll inside the active panel",
    "Jump to the top / bottom of it",
    "Move through the Tool Activity filter",
    "Toggle the Tool Activity live filter",
    "Toggle inline diffs for edits",
    "",
    "Tabs and splits",
    "New tab: an agent, a shell, or one still running",
    "Split the tab right / down",
    "Previous / next tab",
    "Jump to a tab (1 is the dashboard)",
    "Pick a tab from a list, typing to narrow it",
    "Jump to the next tab that needs you",
    "Move this tab along the bar (or drag it with the mouse)",
    "Rename or recolour a tab",
    "Move focus to the next pane",
    "Close the pane and stop its agent",
    "The same, by a name that says so",
    "Restart its agent on the same session (after an update)",
    "On the dashboard: the selected row's tab",
    "On the dashboard: restart every agent tab,",
    "leaving the ones mid-turn alone",
    "Paste the clipboard's image as a file path",
    "The same, in terminals that send it",
    "",
    "Back to the dashboard, leaving it running",
    "",
    "Pasting an image",
    "A terminal carries text, never a picture — so cctop",
    "writes the image to a file and types its path, which",
    "is how every one of these agents reads one.",
    "Does that with the clipboard of this machine",
    "That clipboard is on the machine you sshed from,",
    "so F9 asks the terminal instead — kitty answers",
    "when its clipboard_control allows reads. Windows",
    "Terminal never does: tools/clipboard-bridge.ps1",
    "on it plus ssh -R 8377:127.0.0.1:8377 gives F9",
    "and Ctrl+V the clipboard anyway. Otherwise the",
    "page — `cctop serve` here, open it there — takes",
    "a real paste, and base64 text is filed too:",
    "  wl-paste -t image/png | base64 -w0 | wl-copy",
    "  pngpaste - | base64 | pbcopy",
    "  PowerShell: see docs/the-table.md",
    "",
    "Mouse",
    "Its menu, as Enter opens it",
    "Presses that key (q asks twice)",
    "Answers a confirmation",
    "",
    "Elsewhere",
    "Open the agent this cctop launched",
    "Bell + desktop alert when a session needs you",
    "Share the agent's terminal to a browser",
    "Serve this table to a browser, with or without a tunnel",
    "What was spent and not got back",
    "How each model did on the work you gave it",
    "Agent integration: what reports to cctop",
    "Refresh now",
    "",
    "Environment",
    "light / dark / auto (default: auto)",
    "Drop colour; shape and weight carry the state",
    "Column keys to hide, e.g. tok_rate,mem",
    "  Columns also drop by priority on their own as the window narrows.",
    "",
    "  Costs are estimates from published per-token rates. Flat-rate plans",
    "  (Max, Pro, Team) bill differently, so these may not match your invoice.",
    "",
    "  ↑ / ↓ scroll   any other key returns",
];

/// A line of the page. A key longer than its column still has a blank behind it.
pub open spec fn help_line(kind: char, key: Seq<char>, text: Seq<char>, names: Names) -> LineView {
    let keyed = blank().with("  "@ + left_in(key, 16) + " "@, Ink::Accent);
    if kind == '#' {
        blank().with(text, Ink::Title)
    } else if kind == '-' {
        keyed.with(text, Ink::Plain)
    } else if kind == '+' {
        keyed.with("Add a "@ + names.title@ + " account (runs "@ + names.command@ + " setup-token)"@, Ink::Plain)
    } else if kind == '=' {
        keyed.with("In a "@ + names.title@ + " pane: top / bottom of the chat"@, Ink::Plain)
    } else if kind == '~' {
        blank().with(text, Ink::Dim)
    } else {
        blank()
    }
}

/// The page.
pub open spec fn help_lines(names: Names) -> Seq<LineView> {
    Seq::new(LINES as nat, |i: int| help_line(KINDS[i], KEYS[i]@, TEXTS[i]@, names))
}

/// The page. What a reader needs first stands first: the row menu, which makes the
/// rest of the page optional.
pub fn help_text(names: &Names) -> (r: Text)
    ensures
        r@ == help_lines(*names),
{
    let mut t = Text::new();
    let mut i: usize = 0;
    while i < LINES
        invariant
            i <= LINES,
            t@.len() == i,
            forall|k: int| 0 <= k < i ==> #[trigger] t@[k] == help_line(KINDS[k], KEYS[k]@, TEXTS[k]@, *names),
        decreases LINES - i,
    {
        let kind = KINDS[i];
        if kind == '#' {
            t.push(line_of(TEXTS[i], Ink::Title));
        } else if kind == '-' || kind == '+' || kind == '=' {
            let mut l = Line::new();
            l.put(between("  ", pad_right(KEYS[i], 16).as_str(), " ").as_str(), Ink::Accent);
            if kind == '-' {
                l.put(TEXTS[i], Ink::Plain);
            } else if kind == '+' {
                let mut s = between("Add a ", names.title.as_str(), " account (runs ");
                s.append(names.command.as_str());
                s.append(" setup-token)");
                l.put(s.as_str(), Ink::Plain);
            } else {
                l.put(between("In a ", names.title.as_str(), " pane: top / bottom of the chat").as_str(), Ink::Plain);
            }
            t.push(l);
        } else if kind == '~' {
            t.push(line_of(TEXTS[i], Ink::Dim));
        } else {
            t.gap();
        }
        i += 1;
    }
    assert(t@ =~= help_lines(*names));
    t
}

impl App {
    /// The help page and where it is, so that a key that scrolls it knows where its
    /// end is.
    pub fn help(&mut self, area: Rect) -> (r: (Text, Scrolling))
        requires
            on_screen(area),
        ensures
            r.0@ == help_lines(old(self).names),
            r.1.shows(area, LINES as int, 76, old(self).desk.help_scroll),
            *final(self) == (App { desk: Desk { help_max_scroll: r.1.most, ..old(self).desk }, ..*old(self) }),
    {
        let at = scrollable_modal(area, LINES as u16, 76, self.desk.help_scroll);
        self.desk.help_max_scroll = at.most;
        (help_text(&self.names), at)
    }
}

} // verus!
