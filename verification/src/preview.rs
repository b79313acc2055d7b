//! The Preview panel: the selected session's tab, watched from the dashboard.
//!
//! Read-only by construction. There are two places a screen can come from: a pane
//! with a client of ours on it, and a session a tab stands for, whose screen is
//! asked of the multiplexer at most twice a second and replayed here.
//!
//! When the screen is taller than the panel, the bottom of what the agent has
//! drawn is what stays: that is where its prompt and its question are.

use vstd::prelude::*;

use crate::app::{App, Effect};
use crate::geometry::Rect;
use crate::outside::{
    cell_after, cell_of, cursor_after, cursor_of, hidden_after, hidden_of, history, new_terminal, replayable,
    resize_terminal, sound, write_terminal, Cell, CellView, Terminal,
};
use crate::tabs::{Pane, Tab};
use crate::text::{cat, chars_of, dec, decimal, same};

verus! {

/// This panel's place among [`TABS`](crate::panels::TABS).
pub const TAB: usize = 8;

/// How often a screen is asked for while it is on show, in milliseconds.
pub const REFRESH: u64 = 500;

/// Where the selected session's screen can be read from.
pub enum Target {
    /// A pane with a client on it.
    Pane { tab: usize, pane: usize },
    /// A tab standing for a session no client of ours is on.
    Detached { tab: usize, name: String },
    /// A row read from another machine, where nothing is hosted.
    Remote(String),
    /// Not in any tab here. Whether it runs picks the hint.
    Nowhere { running: bool },
}

/// Whether a text that may be missing is `s`.
pub open spec fn is_text(t: Option<String>, s: Seq<char>) -> bool {
    t is Some && t->0@ == s
}

fn is_text_of(t: &Option<String>, s: &str) -> (r: bool)
    ensures
        r == is_text(*t, s@),
{
    match t {
        Some(x) => same(x.as_str(), s),
        None => false,
    }
}

/// Whether a pane shows the agent running as `pid`, or resumed under the session
/// name `resumed`.
pub open spec fn shows(pane: Pane, pid: Option<u32>, resumed: Seq<char>) -> bool {
    (pid is Some && pane.agent_of() == pid->0) || is_text(pane.resumed, resumed) || is_text(pane.rmux, resumed)
}

/// The first pane that shows it, or the number of panes.
pub open spec fn shown_in(panes: Seq<Pane>, pid: Option<u32>, resumed: Seq<char>) -> int
    decreases panes.len(),
{
    if panes.len() == 0 {
        0
    } else if shows(panes[0], pid, resumed) {
        0
    } else {
        1 + shown_in(panes.skip(1), pid, resumed)
    }
}

/// Whether a tab stands for it.
pub open spec fn stands(tab: Tab, pid: Option<u32>, resumed: Seq<char>) -> bool {
    tab.apart() && ((pid is Some && tab.shared->0.pid == pid) || tab.shared->0.name@ == resumed)
}

/// The target of a tab, where it has one. A pane is asked before the session a
/// tab stands for.
pub open spec fn target_of(tab: Tab, at: usize, pid: Option<u32>, resumed: Seq<char>) -> Option<Target> {
    let p = shown_in(tab.panes@, pid, resumed);
    if p < tab.panes@.len() {
        Some(Target::Pane { tab: at, pane: p as usize })
    } else if stands(tab, pid, resumed) {
        Some(Target::Detached { tab: at, name: tab.shared->0.name })
    } else {
        None
    }
}

/// The target of the first of the tabs from `from` on that has one.
pub open spec fn first_target(tabs: Seq<Tab>, from: int, pid: Option<u32>, resumed: Seq<char>) -> Option<Target>
    decreases tabs.len() - from,
{
    if from >= tabs.len() {
        None
    } else {
        match target_of(tabs[from], from as usize, pid, resumed) {
            Some(t) => Some(t),
            None => first_target(tabs, from + 1, pid, resumed),
        }
    }
}

fn pane_showing(panes: &Vec<Pane>, pid: Option<u32>, resumed: &str) -> (r: usize)
    ensures
        r == shown_in(panes@, pid, resumed@),
        r <= panes@.len(),
{
    let mut i: usize = 0;
    assert(panes@.skip(0) =~= panes@);
    while i < panes.len()
        invariant
            i <= panes@.len(),
            shown_in(panes@, pid, resumed@) == i + shown_in(panes@.skip(i as int), pid, resumed@),
        decreases panes@.len() - i,
    {
        let by_pid = match pid {
            Some(p) => panes[i].agent() == p,
            None => false,
        };
        if by_pid || is_text_of(&panes[i].resumed, resumed) || is_text_of(&panes[i].rmux, resumed) {
            return i;
        }
        assert(panes@.skip(i as int).skip(1) =~= panes@.skip(i + 1));
        i += 1;
    }
    i
}

/// The tab showing the agent running as `pid`, or resumed under the session name
/// `resumed`.
///
/// The name covers the moments the pid does not: a pane just opened, whose agent
/// has not been found yet, and a tab whose session no pid has been read off.
pub fn target_in(tabs: &Vec<Tab>, pid: Option<u32>, resumed: &str) -> (r: Option<Target>)
    ensures
        r == first_target(tabs@, 0, pid, resumed@),
{
    let mut at: usize = 0;
    while at < tabs.len()
        invariant
            at <= tabs@.len(),
            first_target(tabs@, 0, pid, resumed@) == first_target(tabs@, at as int, pid, resumed@),
        decreases tabs@.len() - at,
    {
        let pane: usize = pane_showing(&tabs[at].panes, pid, resumed);
        if pane < tabs[at].panes.len() {
            return Some(Target::Pane { tab: at, pane });
        }
        if tabs[at].detached() {
            match &tabs[at].shared {
                Some(s) => {
                    let by_pid = match (pid, s.pid) {
                        (Some(a), Some(b)) => a == b,
                        _ => false,
                    };
                    if by_pid || same(s.name.as_str(), resumed) {
                        return Some(Target::Detached { tab: at, name: s.name.clone() });
                    }
                },
                None => {},
            }
        }
        at += 1;
    }
    None
}

/// The lower of two rows that may not be there.
pub open spec fn lower_of(a: Option<u16>, b: Option<u16>) -> Option<u16> {
    match (a, b) {
        (Some(x), Some(y)) => Some(if x >= y {
            x
        } else {
            y
        }),
        (Some(x), None) => Some(x),
        (None, y) => y,
    }
}

/// The first screen row to draw when `rows` of them must fit in `height`.
///
/// Anchored on the lower of the cursor and the last row with anything on it, so
/// that the panel ends where the agent's drawing does.
pub open spec fn top_row(rows: u16, height: u16, cursor: Option<u16>, drawn: Option<u16>) -> int {
    if rows <= height {
        0
    } else {
        let end = match lower_of(cursor, drawn) {
            Some(row) => row + 1,
            None => 0,
        };
        let top = end - height;
        if top < 0 {
            0
        } else if top > rows - height {
            rows - height
        } else {
            top
        }
    }
}

/// The first screen row to draw when `rows` of them must fit in `height`.
pub fn first_row(rows: u16, height: u16, cursor: Option<u16>, drawn: Option<u16>) -> (r: u16)
    ensures
        r == top_row(rows, height, cursor, drawn),
        rows > height ==> r + height <= rows,
{
    if rows <= height {
        return 0;
    }
    let low = match (cursor, drawn) {
        (Some(x), Some(y)) => Some(if x >= y {
            x
        } else {
            y
        }),
        (Some(x), None) => Some(x),
        (None, y) => y,
    };
    let end: u32 = match low {
        Some(row) => row as u32 + 1,
        None => 0,
    };
    let top: u32 = if end > height as u32 {
        end - height as u32
    } else {
        0
    };
    if top > (rows - height) as u32 {
        rows - height
    } else {
        top as u16
    }
}

/// The row the agent drew last is in view, and so is its cursor when it is the
/// lower of the two.
pub proof fn the_last_row_drawn_is_in_view(rows: u16, height: u16, cursor: Option<u16>, drawn: Option<u16>)
    requires
        height >= 1,
        lower_of(cursor, drawn) is Some,
        lower_of(cursor, drawn)->0 < rows,
    ensures
        ({
            let row = lower_of(cursor, drawn)->0;
            let top = top_row(rows, height, cursor, drawn);
            top <= row < top + height
        }),
{
}

/// A terminal's screen.
pub struct Screen {
    pub rows: u16,
    pub cols: u16,
    /// Row by row.
    pub cells: Vec<Cell>,
    pub cursor: (u16, u16),
    /// Whether the cursor is not drawn.
    pub hidden: bool,
}

impl Screen {
    /// Whether there is a cell for every row and column.
    pub open spec fn wf(&self) -> bool {
        self.cells@.len() == self.rows * self.cols
    }

    /// Whether this is the screen of a terminal that all this was done to.
    pub open spec fn shows(&self, done: Seq<(u16, u16, Seq<u8>)>) -> bool {
        &&& self.wf()
        &&& self.rows == done.last().0
        &&& self.cols == done.last().1
        &&& forall|row: u16, col: u16|
            row < self.rows && col < self.cols ==> self.cell_at(row as int, col as int) == #[trigger] cell_after(
                done,
                row,
                col,
            )
        &&& self.cursor == cursor_after(done)
        &&& self.hidden == hidden_after(done)
    }

    /// A cell.
    pub open spec fn cell_at(&self, row: int, col: int) -> CellView {
        self.cells@[row * self.cols + col]@
    }

    /// What is in a cell.
    pub open spec fn at(&self, row: int, col: int) -> Seq<char> {
        self.cells@[row * self.cols + col].text@
    }

    /// A cell, where there is one.
    pub fn cell(&self, row: u16, col: u16) -> (r: Option<&Cell>)
        requires
            self.wf(),
        ensures
            r is Some <==> row < self.rows && col < self.cols,
            r matches Some(c) ==> c@ == self.cell_at(row as int, col as int),
    {
        if row >= self.rows || col >= self.cols {
            return None;
        }
        proof {
            assert(row * self.cols + col < self.rows * self.cols) by (nonlinear_arith)
                requires
                    row < self.rows,
                    col < self.cols,
            ;
            assert(self.rows * self.cols <= 65535 * 65535) by (nonlinear_arith)
                requires
                    self.rows <= 65535,
                    self.cols <= 65535,
            ;
            assert(0 <= row * self.cols) by (nonlinear_arith);
        }
        let at: usize = (row as u32 * self.cols as u32 + col as u32) as usize;
        Some(&self.cells[at])
    }

    fn of(terminal: &Terminal, rows: u16, cols: u16) -> (r: Screen)
        requires
            sound(history(*terminal)),
            history(*terminal).last().0 == rows,
            history(*terminal).last().1 == cols,
        ensures
            r.shows(history(*terminal)),
    {
        let ghost done = history(*terminal);
        let mut cells: Vec<Cell> = Vec::new();
        let mut row: u16 = 0;
        assert(0 * cols == 0) by (nonlinear_arith);
        while row < rows
            invariant
                row <= rows,
                done == history(*terminal),
                sound(done),
                done.last().0 == rows,
                done.last().1 == cols,
                cells@.len() == row * cols,
                forall|y: u16, x: u16|
                    y < row && x < cols ==> cells@[y * cols + x]@ == #[trigger] cell_after(done, y, x),
            decreases rows - row,
        {
            let mut col: u16 = 0;
            while col < cols
                invariant
                    col <= cols,
                    row < rows,
                    done == history(*terminal),
                    sound(done),
                    done.last().0 == rows,
                    done.last().1 == cols,
                    cells@.len() == row * cols + col,
                    forall|y: u16, x: u16|
                        x < cols && (y < row || (y == row && x < col)) ==> cells@[y * cols + x]@ == #[trigger] cell_after(
                            done,
                            y,
                            x,
                        ),
                decreases cols - col,
            {
                let ghost was = cells@;
                match cell_of(terminal, row, col) {
                    Some(c) => {
                        cells.push(c);
                    },
                    None => {},
                }
                proof {
                    assert forall|y: u16, x: u16| x < cols && (y < row || (y == row && x < col + 1)) implies cells@[y
                        * cols + x]@ == #[trigger] cell_after(done, y, x) by {
                        if y < row || x < col {
                            assert(0 <= y * cols + x < row * cols + col) by (nonlinear_arith)
                                requires
                                    y < row || (y == row && x < col),
                                    x < cols,
                                    y >= 0,
                                    x >= 0,
                                    col >= 0,
                            ;
                            assert(cells@[y * cols + x] == was[y * cols + x]);
                        }
                    }
                }
                col += 1;
            }
            assert(row * cols + cols == (row + 1) * cols) by (nonlinear_arith);
            row += 1;
        }
        Screen { rows, cols, cells, cursor: cursor_of(terminal), hidden: hidden_of(terminal) }
    }

    /// Whether a row has anything on it.
    pub open spec fn drawn_on(&self, row: int) -> bool {
        exists|col: int| 0 <= col < self.cols && (#[trigger] self.at(row, col)).len() > 0
    }

    fn row_drawn(&self, row: u16) -> (r: bool)
        requires
            self.wf(),
            row < self.rows,
        ensures
            r == self.drawn_on(row as int),
    {
        let mut col: u16 = 0;
        while col < self.cols
            invariant
                col <= self.cols,
                row < self.rows,
                self.wf(),
                forall|c: int| 0 <= c < col ==> (#[trigger] self.at(row as int, c)).len() == 0,
            decreases self.cols - col,
        {
            match self.cell(row, col) {
                Some(c) => {
                    if !c.text.as_str().is_empty() {
                        assert(self.at(row as int, col as int).len() > 0);
                        return true;
                    }
                },
                None => {},
            }
            col += 1;
        }
        false
    }
}

/// The last row of a screen with anything on it.
pub fn last_drawn(screen: &Screen) -> (r: Option<u16>)
    requires
        screen.wf(),
    ensures
        match r {
            Some(row) => row < screen.rows && screen.drawn_on(row as int) && forall|k: int|
                row < k < screen.rows ==> !#[trigger] screen.drawn_on(k),
            None => forall|k: int| 0 <= k < screen.rows ==> !#[trigger] screen.drawn_on(k),
        },
{
    let mut row: u16 = screen.rows;
    while row > 0
        invariant
            row <= screen.rows,
            screen.wf(),
            forall|k: int| row <= k < screen.rows ==> !#[trigger] screen.drawn_on(k),
        decreases row,
    {
        row -= 1;
        if screen.row_drawn(row) {
            return Some(row);
        }
    }
    None
}

/// A screen seen from row `top` down.
pub struct Window<'a> {
    pub screen: &'a Screen,
    pub top: u16,
}

impl<'a> Window<'a> {
    /// A cell of the window, where there is one.
    pub fn cell(&self, row: u16, col: u16) -> (r: Option<&Cell>)
        requires
            self.screen.wf(),
        ensures
            r is Some <==> row + self.top < self.screen.rows && col < self.screen.cols,
            r matches Some(c) ==> c@ == self.screen.cell_at(row + self.top, col as int),
    {
        match row.checked_add(self.top) {
            Some(at) => self.screen.cell(at, col),
            None => None,
        }
    }

    /// Whether the cursor is hidden.
    pub fn hide_cursor(&self) -> (r: bool)
        ensures
            r == self.screen.hidden,
    {
        self.screen.hidden
    }

    /// Where the cursor is in the window, and out of range when it is above it.
    pub fn cursor_position(&self) -> (r: (u16, u16))
        ensures
            r.1 == self.screen.cursor.1,
            r.0 == (if self.screen.cursor.0 >= self.top {
                self.screen.cursor.0 - self.top
            } else {
                u16::MAX as int
            }),
    {
        let (row, col) = self.screen.cursor;
        match row.checked_sub(self.top) {
            Some(at) => (at, col),
            None => (u16::MAX, col),
        }
    }
}

/// A screen as the multiplexer hands it over.
pub struct Snapshot {
    pub cols: u16,
    pub rows: u16,
    pub cursor: Option<(u16, u16)>,
    pub bytes: Vec<u8>,
}

/// Whether two snapshots are of the same screen.
pub open spec fn same_screen(a: Snapshot, b: Snapshot) -> bool {
    a.cols == b.cols && a.rows == b.rows && a.cursor == b.cursor && a.bytes@ == b.bytes@
}

fn is_same_screen(a: &Snapshot, b: &Snapshot) -> (r: bool)
    ensures
        r == same_screen(*a, *b),
{
    let cursor = match (a.cursor, b.cursor) {
        (Some(x), Some(y)) => x.0 == y.0 && x.1 == y.1,
        (None, None) => true,
        _ => false,
    };
    if !cursor || a.cols != b.cols || a.rows != b.rows || a.bytes.len() != b.bytes.len() {
        return false;
    }
    let mut i: usize = 0;
    while i < a.bytes.len()
        invariant
            i <= a.bytes@.len(),
            a.bytes@.len() == b.bytes@.len(),
            forall|j: int| 0 <= j < i ==> a.bytes@[j] == b.bytes@[j],
        decreases a.bytes@.len() - i,
    {
        if a.bytes[i] != b.bytes[i] {
            return false;
        }
        i += 1;
    }
    assert(a.bytes@ =~= b.bytes@);
    true
}

/// The characters of a text that is all ASCII, as bytes.
pub open spec fn ascii(s: Seq<char>) -> Seq<u8> {
    s.map_values(|c: char| c as u8)
}

fn push_ascii(out: &mut Vec<u8>, s: &str)
    ensures
        final(out)@ == old(out)@ + ascii(s@),
{
    let v = chars_of(s);
    let mut i: usize = 0;
    while i < v.len()
        invariant
            i <= v@.len(),
            out@ =~= old(out)@ + ascii(v@.take(i as int)),
        decreases v@.len() - i,
    {
        out.push(v[i] as u8);
        i += 1;
    }
    assert(v@.take(i as int) =~= v@);
}

/// What puts the cursor where a snapshot has it, or hides it.
pub open spec fn cursor_codes(cursor: Option<(u16, u16)>) -> Seq<char> {
    match cursor {
        Some(at) => "\x1b["@ + dec((at.0 + 1) as nat) + ";"@ + dec((at.1 + 1) as nat) + "H\x1b[?25h"@,
        None => "\x1b[?25l"@,
    }
}

/// What is written to a terminal to show a snapshot on it: everything cleared,
/// the screen, and the cursor.
pub open spec fn replay(s: Snapshot) -> Seq<u8> {
    ascii("\x1b[0m\x1b[H\x1b[2J"@) + s.bytes@ + ascii(cursor_codes(s.cursor))
}

/// What is written to a terminal to show a snapshot on it.
pub fn replay_bytes(s: &Snapshot) -> (r: Vec<u8>)
    ensures
        r@ == replay(*s),
{
    let mut out: Vec<u8> = Vec::new();
    push_ascii(&mut out, "\x1b[0m\x1b[H\x1b[2J");
    let ghost head = out@;
    assert(head =~= ascii("\x1b[0m\x1b[H\x1b[2J"@));
    let mut i: usize = 0;
    while i < s.bytes.len()
        invariant
            i <= s.bytes@.len(),
            out@ =~= head + s.bytes@.take(i as int),
        decreases s.bytes@.len() - i,
    {
        out.push(s.bytes[i]);
        i += 1;
    }
    assert(s.bytes@.take(i as int) =~= s.bytes@);
    let codes = match s.cursor {
        Some(at) => {
            let mut c = cat("\x1b[", decimal(at.0 as u128 + 1).as_str());
            c.append(";");
            c.append(decimal(at.1 as u128 + 1).as_str());
            c.append("H\x1b[?25h");
            c
        },
        None => "\x1b[?25l".to_owned(),
    };
    push_ascii(&mut out, codes.as_str());
    out
}

/// The screen of the tab last previewed, kept between captures.
pub struct Capture {
    /// The session this is a screen of. A different one starts over.
    pub name: String,
    /// The terminal the captures are replayed on.
    pub parser: Option<Terminal>,
    /// What it shows.
    pub screen: Option<Screen>,
    /// The last capture replayed, so that an unchanged screen costs no redraw.
    pub last: Option<Snapshot>,
    /// The multiplexer answered, but not with a screen.
    pub failed: bool,
    pub asked_at: Option<u64>,
    /// An answer is still owed.
    pub pending: bool,
}

/// What was heard of the screen that was asked for.
pub enum Answer {
    /// Nothing yet.
    Waiting,
    /// Nobody is left to answer.
    Lost,
    /// The screen, or that there is none.
    Screen(Option<Snapshot>),
}

/// A screen that a terminal can be had for. One that none can be had for is no
/// screen.
pub open spec fn usable(answer: Option<Snapshot>) -> Option<Snapshot> {
    match answer {
        Some(s) => if replayable(s.rows, s.cols) {
            Some(s)
        } else {
            None
        },
        None => None,
    }
}

impl Capture {
    /// Nothing captured, of the session `name`.
    pub fn new(name: String) -> (r: Capture)
        ensures
            r == (Capture { name, parser: None, screen: None, last: None, failed: false, asked_at: None, pending: false }),
    {
        Capture { name, parser: None, screen: None, last: None, failed: false, asked_at: None, pending: false }
    }

    /// Whether the terminal takes whatever is written to it, and the screen has a
    /// cell for each of its own.
    pub open spec fn wf(&self) -> bool {
        &&& self.parser is Some ==> {
            &&& sound(history(self.parser->0))
            &&& self.last is Some
            &&& self.last->0.cols == history(self.parser->0).last().1
        }
        &&& self.screen is Some ==> self.screen->0.wf()
    }

    /// What was done to the terminal before `s` is replayed on it: one terminal is
    /// kept, unless it would have to become narrower.
    pub open spec fn begun_with(&self, s: Snapshot) -> Seq<(u16, u16, Seq<u8>)> {
        if self.parser is Some && history(self.parser->0).last().1 <= s.cols {
            history(self.parser->0)
        } else {
            seq![(s.rows, s.cols, Seq::<u8>::empty())]
        }
    }

    /// What replaying `s` leaves: the terminal is given its size and written to.
    pub open spec fn replayed(&self, s: Snapshot, after: Capture) -> bool {
        if self.last is Some && same_screen(self.last->0, s) {
            after == *self
        } else {
            let done = self.begun_with(s).push((s.rows, s.cols, Seq::<u8>::empty())).push((s.rows, s.cols, replay(s)));
            &&& after.last == Some(s)
            &&& after.parser is Some
            &&& history(after.parser->0) == done
            &&& after.screen is Some
            &&& after.screen->0.shows(done)
            &&& after.wf()
            &&& after == (Capture { parser: after.parser, screen: after.screen, last: after.last, ..*self })
        }
    }

    /// What hearing of the screen leaves, and whether there is something new to
    /// draw: a screen that is not the one already there, or one after none.
    pub open spec fn caught(&self, heard: Answer, after: Capture, changed: bool) -> bool {
        if self.pending && heard is Screen {
            match usable(heard->Screen_0) {
                Some(s) => {
                    &&& (Capture { pending: false, ..*self }).replayed(s, Capture { failed: self.failed, ..after })
                    &&& !after.failed
                    &&& changed == (self.failed || !(self.last is Some && same_screen(self.last->0, s)))
                },
                None => {
                    &&& after == (Capture { failed: true, pending: false, ..*self })
                    &&& changed == !self.failed
                },
            }
        } else {
            !changed && after == (Capture { pending: false, ..*self })
        }
    }

    /// Replay a capture, returning whether anything changed.
    ///
    /// On one terminal, resized and cleared rather than made anew. Only where it
    /// would become narrower is there a new one: half of a wide character may be
    /// left then, which its parser does not survive being written over.
    pub fn apply(&mut self, s: Snapshot) -> (r: bool)
        requires
            old(self).wf(),
            replayable(s.rows, s.cols),
        ensures
            old(self).replayed(s, *final(self)),
            r == !(old(self).last is Some && same_screen(old(self).last->0, s)),
            final(self).wf(),
    {
        match &self.last {
            Some(l) => {
                if is_same_screen(l, &s) {
                    return false;
                }
            },
            None => {},
        }
        let bytes = replay_bytes(&s);
        let mut held: Option<Terminal> = None;
        std::mem::swap(&mut held, &mut self.parser);
        let wide: u16 = match &self.last {
            Some(l) => l.cols,
            None => 0,
        };
        let mut terminal = match held {
            Some(t) => if wide <= s.cols {
                t
            } else {
                new_terminal(s.rows, s.cols)
            },
            None => new_terminal(s.rows, s.cols),
        };
        resize_terminal(&mut terminal, s.rows, s.cols);
        write_terminal(&mut terminal, &bytes);
        self.screen = Some(Screen::of(&terminal, s.rows, s.cols));
        self.parser = Some(terminal);
        self.last = Some(s);
        true
    }
}

impl Snapshot {
    /// Whether the screen is of a size that a terminal can be had in.
    pub fn can_be_replayed(&self) -> (r: bool)
        ensures
            r == replayable(self.rows, self.cols),
    {
        self.rows >= 2 && self.cols >= 3 && self.cols <= 65527
    }
}

impl Capture {
    fn catch(&mut self, heard: Answer) -> (r: bool)
        requires
            old(self).wf(),
        ensures
            old(self).caught(heard, *final(self), r),
            final(self).wf(),
    {
        let owed = self.pending;
        self.pending = false;
        match heard {
            Answer::Screen(answer) => {
                if !owed {
                    return false;
                }
                let usable = match answer {
                    Some(screen) => if screen.can_be_replayed() {
                        Some(screen)
                    } else {
                        None
                    },
                    None => None,
                };
                match usable {
                    Some(screen) => {
                        let failed = self.failed;
                        let drew = self.apply(screen);
                        self.failed = false;
                        assert(Capture { failed: old(self).failed, ..*self } == (Capture { failed, ..*self }));
                        drew || failed
                    },
                    None => {
                        let failed = self.failed;
                        self.failed = true;
                        !failed
                    },
                }
            },
            _ => false,
        }
    }
}

/// The name of the multiplexer session an agent's session is resumed under.
pub open spec fn session_name(provider: Seq<char>, id: Seq<char>) -> Seq<char> {
    "cctop-"@ + provider + "-"@ + id
}

/// The name of the multiplexer session an agent's session is resumed under.
pub fn name_for_session(provider: &str, id: &str) -> (r: String)
    ensures
        r@ == session_name(provider@, id@),
{
    let mut s = cat("cctop-", provider);
    s.append("-");
    s.append(id);
    s
}

/// The key that goes to the tab at index `at`, while there is one: the dashboard
/// has the first, so the first tab has the second.
pub open spec fn alt_word(at: int) -> Option<Seq<char>> {
    if at + 2 <= 9 {
        Some("Alt+"@ + dec((at + 2) as nat))
    } else {
        None
    }
}

/// The key that goes to the tab at index `at`, while there is one.
pub fn alt_key(at: usize) -> (r: Option<String>)
    ensures
        match (r, alt_word(at as int)) {
            (Some(a), Some(b)) => a@ == b,
            (None, None) => true,
            _ => false,
        },
{
    if at <= 7 {
        Some(cat("Alt+", decimal(at as u128 + 2).as_str()))
    } else {
        None
    }
}

/// What the panel says on its border: which tab it is, that typing does not
/// reach it, and how to get to where it does.
pub open spec fn caption_of(title: Seq<char>, at: int) -> Seq<char> {
    let named = " "@ + title + " · read-only"@;
    match alt_word(at) {
        Some(key) => named + " · "@ + key + " to drive"@ + " "@,
        None => named + " "@,
    }
}

/// What the panel says on its border.
pub fn caption(title: &str, at: usize) -> (r: String)
    ensures
        r@ == caption_of(title@, at as int),
{
    let mut s = cat(" ", title);
    s.append(" · read-only");
    match alt_key(at) {
        Some(key) => {
            s.append(" · ");
            s.append(key.as_str());
            s.append(" to drive");
        },
        None => {},
    }
    s.append(" ");
    s
}

/// Where a screen is drawn in `inner`: from which of its rows, and on which
/// cells. Nothing is asked of its size; what does not fit is clipped.
pub fn placed(rows: u16, cols: u16, cursor: Option<u16>, drawn: Option<u16>, inner: Rect) -> (r: (u16, Rect))
    ensures
        r.0 == top_row(rows, inner.height, cursor, drawn),
        r.1 == (Rect {
            width: if cols < inner.width {
                cols
            } else {
                inner.width
            },
            height: if rows - r.0 < inner.height {
                (rows - r.0) as u16
            } else {
                inner.height
            },
            ..inner
        }),
        r.1.within(inner),
{
    let top: u16 = first_row(rows, inner.height, cursor, drawn);
    let width: u16 = if cols < inner.width {
        cols
    } else {
        inner.width
    };
    let height: u16 = if rows - top < inner.height {
        rows - top
    } else {
        inner.height
    };
    (top, Rect { x: inner.x, y: inner.y, width, height })
}

impl App {
    /// Where the selected row's screen can be read from.
    pub open spec fn watched(&self) -> Option<Target> {
        match self.session_at() {
            None => None,
            Some(s) => match s.remote {
                Some(remote) => Some(Target::Remote(remote.host)),
                None => match first_target(
                    self.tabs@,
                    0,
                    s.pid(),
                    session_name(s.agent@, s.session_id@),
                ) {
                    Some(t) => Some(t),
                    None => Some(Target::Nowhere { running: s.running() }),
                },
            },
        }
    }

    /// Where the selected row's screen can be read from, or `None` with no
    /// session under the cursor.
    pub fn preview_target(&self) -> (r: Option<Target>)
        ensures
            r == self.watched(),
    {
        let session = match self.selected_session() {
            Some(s) => s,
            None => {
                return None;
            },
        };
        match &session.remote {
            Some(remote) => {
                return Some(Target::Remote(remote.host.clone()));
            },
            None => {},
        }
        let resumed = name_for_session(session.agent.as_str(), session.session_id.as_str());
        match target_in(&self.tabs, session.root_pid(), resumed.as_str()) {
            Some(t) => Some(t),
            None => Some(Target::Nowhere { running: session.is_running() }),
        }
    }

    /// Whether the Preview panel is on screen and shows the session `name`.
    pub open spec fn watching(&self) -> Option<String> {
        if self.tab != 0 || self.bottom_tab != TAB {
            None
        } else {
            match self.watched() {
                Some(Target::Detached { tab: _, name }) => Some(name),
                _ => None,
            }
        }
    }

    /// The capture of the session `name`: the one there is, or a fresh one.
    pub open spec fn capture_of(&self, name: String) -> Capture {
        if self.preview.name@ == name@ {
            self.preview
        } else {
            Capture { name, parser: None, screen: None, last: None, failed: false, asked_at: None, pending: false }
        }
    }

    /// Keep a session's screen fresh while the Preview panel shows it, returning
    /// whether there is something new to draw.
    ///
    /// `heard` is what has come of the screen last asked for, and is read only
    /// while one is owed. The screen is asked for again once it is old enough,
    /// and never while the panel is not on show.
    #[verifier::rlimit(30)]
    pub fn pump_preview(&mut self, heard: Answer) -> (r: bool)
        requires
            old(self).preview.wf(),
        ensures
            final(self).preview.wf(),
            match old(self).watching() {
                None => !r && *final(self) == *old(self),
                Some(name) => {
                    let was = old(self).capture_of(name);
                    if was.pending && heard is Waiting {
                        &&& !r
                        &&& final(self).preview == was
                        &&& *final(self) == (App { preview: final(self).preview, ..*old(self) })
                    } else {
                        let due = was.asked_at is None || old(self).now - (was.asked_at->0) >= REFRESH;
                        exists|seen: Capture|
                            {
                                &&& #[trigger] was.caught(heard, seen, r)
                                &&& if due {
                                    &&& final(self).preview == (Capture {
                                        asked_at: Some(old(self).now),
                                        pending: true,
                                        ..seen
                                    })
                                    &&& final(self).effects@ == old(self).effects@.push(Effect::CaptureScreen(name))
                                } else {
                                    final(self).preview == seen && final(self).effects@ == old(self).effects@
                                }
                                &&& *final(self) == (App {
                                    preview: final(self).preview,
                                    effects: final(self).effects,
                                    ..*old(self)
                                })
                            }
                    }
                },
            },
    {
        if self.tab != 0 || self.bottom_tab != TAB {
            return false;
        }
        let name = match self.preview_target() {
            Some(Target::Detached { tab: _, name }) => name,
            _ => {
                return false;
            },
        };
        if !same(self.preview.name.as_str(), name.as_str()) {
            self.preview = Capture::new(name.clone());
        }
        let ghost was = self.preview;
        assert(was == old(self).capture_of(name));
        if self.preview.pending {
            match heard {
                Answer::Waiting => {
                    return false;
                },
                _ => {},
            }
        }
        let changed = self.preview.catch(heard);
        let ghost seen = self.preview;
        assert(was.caught(heard, seen, changed));
        let due = match self.preview.asked_at {
            Some(at) => self.now >= at && self.now - at >= REFRESH,
            None => true,
        };
        if due {
            self.preview.asked_at = Some(self.now);
            self.preview.pending = true;
            self.ask(Effect::CaptureScreen(name));
        }
        changed
    }

    /// The one line the panel says when it has no screen to show.
    pub open spec fn preview_words(&self) -> Option<Seq<char>> {
        match self.watched() {
            None => None,
            Some(Target::Pane { tab: _, pane: _ }) => None,
            Some(Target::Detached { tab, name }) => {
                let ours = self.preview.name@ == name@;
                if ours && self.preview.failed {
                    let told = "rmux did not hand over "@ + self.tabs@[tab as int].name() + "'s screen"@;
                    Some(
                        match alt_word(tab as int) {
                            Some(k) => told + " — "@ + k + " opens it"@,
                            None => told,
                        },
                    )
                } else if ours && self.preview.screen is Some {
                    None
                } else {
                    Some("Loading…"@)
                }
            },
            Some(Target::Remote(host)) => Some(
                "This session is on "@ + host@ + "; cctop only hosts tabs for this machine."@,
            ),
            Some(Target::Nowhere { running }) => Some(
                if running {
                    "Not in a tab here — a opens its terminal in one, and it shows here live."@
                } else {
                    "Not in a tab here — R resumes it in one, and it shows here live."@
                },
            ),
        }
    }

    /// The one line the panel says when it has no screen to show.
    pub fn preview_note(&self) -> (r: Option<String>)
        ensures
            match (r, self.preview_words()) {
                (Some(a), Some(b)) => a@ == b,
                (None, None) => true,
                _ => false,
            },
    {
        match self.preview_target() {
            None => None,
            Some(Target::Pane { tab: _, pane: _ }) => None,
            Some(Target::Detached { tab, name }) => {
                let ours = same(self.preview.name.as_str(), name.as_str());
                let n: usize = self.tabs.len();
                if ours && self.preview.failed {
                    proof {
                        let s = self.session_at()->0;
                        target_in_range(self.tabs@, 0, s.pid(), session_name(s.agent@, s.session_id@));
                    }
                    let title = self.tabs[tab].title();
                    let mut s = cat("rmux did not hand over ", title.as_str());
                    s.append("'s screen");
                    match alt_key(tab) {
                        Some(k) => {
                            s.append(" — ");
                            s.append(k.as_str());
                            s.append(" opens it");
                        },
                        None => {},
                    }
                    Some(s)
                } else if ours && self.preview.screen.is_some() {
                    None
                } else {
                    Some("Loading…".to_owned())
                }
            },
            Some(Target::Remote(host)) => {
                let mut s = cat("This session is on ", host.as_str());
                s.append("; cctop only hosts tabs for this machine.");
                Some(s)
            },
            Some(Target::Nowhere { running }) => {
                if running {
                    Some("Not in a tab here — a opens its terminal in one, and it shows here live.".to_owned())
                } else {
                    Some("Not in a tab here — R resumes it in one, and it shows here live.".to_owned())
                }
            },
        }
    }
}

/// A target is in a tab that is there, and in a pane that is there.
pub proof fn target_in_range(tabs: Seq<Tab>, from: int, pid: Option<u32>, resumed: Seq<char>)
    requires
        0 <= from,
        tabs.len() <= usize::MAX,
    ensures
        match first_target(tabs, from, pid, resumed) {
            Some(Target::Pane { tab, pane }) => tab < tabs.len() && pane < tabs[tab as int].panes@.len(),
            Some(Target::Detached { tab, name }) => tab < tabs.len() && tabs[tab as int].apart(),
            Some(_) => false,
            None => true,
        },
    decreases tabs.len() - from,
{
    if from < tabs.len() {
        shown_range(tabs[from].panes@, pid, resumed);
        target_in_range(tabs, from + 1, pid, resumed);
    }
}

proof fn shown_range(panes: Seq<Pane>, pid: Option<u32>, resumed: Seq<char>)
    ensures
        0 <= shown_in(panes, pid, resumed) <= panes.len(),
    decreases panes.len(),
{
    if panes.len() > 0 {
        shown_range(panes.skip(1), pid, resumed);
    }
}

proof fn a_shown_pane_shows_it(panes: Seq<Pane>, pid: Option<u32>, resumed: Seq<char>, i: int)
    ensures
        shown_in(panes, pid, resumed) < panes.len() ==> shows(panes[shown_in(panes, pid, resumed)], pid, resumed),
        0 <= i < shown_in(panes, pid, resumed) && i < panes.len() ==> !shows(panes[i], pid, resumed),
        0 <= shown_in(panes, pid, resumed) <= panes.len(),
    decreases panes.len(),
{
    if panes.len() > 0 && !shows(panes[0], pid, resumed) {
        a_shown_pane_shows_it(panes.skip(1), pid, resumed, i - 1);
        let at = shown_in(panes.skip(1), pid, resumed);
        if at < panes.skip(1).len() {
            assert(panes.skip(1)[at] == panes[at + 1]);
        }
        if i > 0 && i < panes.len() {
            assert(panes.skip(1)[i - 1] == panes[i]);
        }
    }
}

/// What is previewed is the selected agent's own screen: the pane it is in, or the
/// session it was left in, and no other's; where no tab has it, none is.
pub proof fn a_preview_is_of_its_agent(tabs: Seq<Tab>, from: int, pid: Option<u32>, resumed: Seq<char>, k: int, p: int)
    requires
        0 <= from,
        tabs.len() <= usize::MAX,
        forall|t: int| 0 <= t < tabs.len() ==> (#[trigger] tabs[t]).panes@.len() <= usize::MAX,
    ensures
        match first_target(tabs, from, pid, resumed) {
            Some(Target::Pane { tab, pane }) => {
                let it = tabs[tab as int].panes@[pane as int];
                from <= tab < tabs.len() && pane < tabs[tab as int].panes@.len() && ((pid is Some && it.agent_of()
                    == pid->0) || is_text(it.resumed, resumed) || is_text(it.rmux, resumed))
            },
            Some(Target::Detached { tab, name }) => {
                let it = tabs[tab as int].shared;
                from <= tab < tabs.len() && it is Some && name == it->0.name && ((pid is Some && it->0.pid == pid)
                    || it->0.name@ == resumed)
            },
            Some(_) => false,
            None => from <= k < tabs.len() && 0 <= p < tabs[k].panes@.len() ==> !shows(tabs[k].panes@[p], pid, resumed),
        },
    decreases tabs.len() - from,
{
    if from < tabs.len() {
        let panes = tabs[from].panes@;
        a_shown_pane_shows_it(panes, pid, resumed, p);
        assert(panes.len() <= usize::MAX);
        a_preview_is_of_its_agent(tabs, from + 1, pid, resumed, k, p);
    }
}

/// A tab is driven with the key of its place in the bar, where the dashboard is the
/// first.
pub proof fn a_tab_is_driven_by_its_place(title: Seq<char>, at: int)
    requires
        0 <= at,
    ensures
        at < 8 ==> alt_word(at) == Some("Alt+"@ + dec((at + 2) as nat)) && caption_of(title, at) == " "@ + title
            + " · read-only"@ + " · "@ + ("Alt+"@ + dec((at + 2) as nat)) + " to drive"@ + " "@,
        at >= 8 ==> alt_word(at) is None && caption_of(title, at) == " "@ + title + " · read-only"@ + " "@,
{
}

/// The lower of two rows is no higher than either.
pub proof fn the_lower_row_is_below_both(a: Option<u16>, b: Option<u16>)
    ensures
        a matches Some(x) ==> lower_of(a, b) is Some && lower_of(a, b)->0 >= x,
        b matches Some(y) ==> lower_of(a, b) is Some && lower_of(a, b)->0 >= y,
        lower_of(a, b) == a || lower_of(a, b) == b,
{
}

/// The cursor is put where the snapshot has it, counted from one, and hidden where it
/// has none; and what is replayed is cleared first and ends with the cursor.
pub proof fn a_replay_puts_the_cursor_back(s: Snapshot, row: u16, col: u16)
    ensures
        s.cursor == Some((row, col)) ==> cursor_codes(s.cursor) == "\x1b["@ + dec((row + 1) as nat) + ";"@ + dec(
            (col + 1) as nat,
        ) + "H\x1b[?25h"@,
        s.cursor is None ==> cursor_codes(s.cursor) == "\x1b[?25l"@,
        ({
            let clear = ascii("\x1b[0m\x1b[H\x1b[2J"@);
            let n = clear.len() as int;
            &&& replay(s).take(n) == clear
            &&& replay(s).subrange(n, n + s.bytes@.len()) == s.bytes@
            &&& replay(s).skip(n + s.bytes@.len()) == ascii(cursor_codes(s.cursor))
        }),
{
    let clear = ascii("\x1b[0m\x1b[H\x1b[2J"@);
    let n = clear.len() as int;
    assert(replay(s).take(n) =~= clear);
    assert(replay(s).subrange(n, n + s.bytes@.len()) =~= s.bytes@);
    assert(replay(s).skip(n + s.bytes@.len()) =~= ascii(cursor_codes(s.cursor)));
}

/// A session is resumed under a name that no other session of its agent has.
pub proof fn a_resumed_session_has_its_own_name(provider: Seq<char>, a: Seq<char>, b: Seq<char>)
    ensures
        session_name(provider, a) == session_name(provider, b) <==> a == b,
        crate::text::ends(session_name(provider, a), a),
{
    reveal_strlit("-");
    let (x, y) = (session_name(provider, a), session_name(provider, b));
    let n = ("cctop-"@ + provider + "-"@).len() as int;
    assert(x.skip(n) =~= a);
    assert(y.skip(n) =~= b);
    assert(x.skip(x.len() - a.len()) =~= a);
}

} // verus!
