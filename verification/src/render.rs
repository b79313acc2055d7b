//! What goes where on the screen, and what is over it.

use vstd::prelude::*;

use crate::app::{App, Mode};
use crate::bar::column;
use crate::geometry::Rect;
use crate::quota::{border_text, maybe, pane_quota, pane_status, Quota};
use crate::outside::maybe_text;
use crate::styled::Ink;
use crate::tabs::Pane;
use crate::text::{cat, count, dec, decimal};

verus! {

/// The rows of the panels under the table: close to half of what the fixed parts
/// leave, within bounds, and never so many that the table goes.
pub fn bottom_height(height: u16) -> (r: u16)
    ensures
        ({
            let body = if height < 9 {
                0
            } else {
                height - 9
            };
            let part = body * 45 / 100;
            let want = if part < 8 {
                8
            } else if part > 24 {
                24
            } else {
                part
            };
            let most = if body < 4 {
                0
            } else {
                body - 4
            };
            r == (if want < most {
                want
            } else {
                most
            })
        }),
{
    let body: u16 = height.saturating_sub(9);
    let part: u32 = body as u32 * 45 / 100;
    let want: u16 = if part < 8 {
        8
    } else if part > 24 {
        24
    } else {
        part as u16
    };
    let most: u16 = body.saturating_sub(4);
    if want < most {
        want
    } else {
        most
    }
}

/// The screen under the bar.
pub fn under_bar(area: Rect) -> (r: Rect)
    ensures
        r == (Rect {
            y: column(area.y + 1),
            height: (if area.height < 1 {
                0
            } else {
                area.height - 1
            }) as u16,
            ..area
        }),
{
    Rect { x: area.x, y: area.y.saturating_add(1), width: area.width, height: area.height.saturating_sub(1) }
}

/// What stands on a pane's border.
pub struct PaneBorder {
    /// The quota of the account the agent runs as, on the right.
    pub quota: Option<String>,
    /// The keys that leave the pane, on the one that has the keyboard.
    pub keys: Option<&'static str>,
    /// How far back the pane is scrolled.
    pub behind: Option<String>,
}

/// The cells the quota may take up beside a label.
pub open spec fn quota_room(label: Seq<char>, width: u16) -> int {
    let left = width - (label.len() + 6) - 2;
    if left < 0 {
        0
    } else {
        left
    }
}

/// What stands on the border of a pane `width` cells wide: its quota where that
/// fits beside the label, the keys where it has the focus, and how far it is
/// scrolled back, since nothing on a still screen says so.
pub fn pane_border(pane: &Pane, quota: &Quota, now: i64, width: u16, focused: bool, behind: usize) -> (r: PaneBorder)
    ensures
        maybe_text(r.quota) == (match pane_status(pane.label@, maybe_text(pane.profile), *quota) {
            Some(status) => border_text(status, now, quota_room(pane.label@, width) as u16),
            None => None,
        }),
        match r.keys {
            Some(k) => focused && k@ == " F12 back · Alt+w close "@,
            None => !focused,
        },
        match r.behind {
            Some(s) => behind > 0 && s@ == " ↑ "@ + dec(behind as nat) + " — type to catch up "@,
            None => behind == 0,
        },
{
    let n: usize = count(pane.label.as_str());
    let room: u16 = if n >= width as usize {
        0
    } else {
        (width - n as u16).saturating_sub(8)
    };
    assert(room == quota_room(pane.label@, width));
    let profile = match &pane.profile {
        Some(p) => Some(p.as_str()),
        None => None,
    };
    assert(maybe(profile) == maybe_text(pane.profile));
    let text = pane_quota(pane.label.as_str(), profile, quota, now, room);
    let behind = if behind > 0 {
        let mut s = cat(" ↑ ", decimal(behind as u128).as_str());
        s.append(" — type to catch up ");
        Some(s)
    } else {
        None
    };
    PaneBorder {
        quota: text,
        keys: if focused {
            Some(" F12 back · Alt+w close ")
        } else {
            None
        },
        behind,
    }
}

/// The cells an agent's screen is drawn on. It may have been granted less than was
/// asked for, and what is left over stays blank rather than being stretched into.
pub fn granted(inner: Rect, cols: u16, rows: u16) -> (r: Rect)
    ensures
        r == (Rect {
            width: if cols < inner.width {
                cols
            } else {
                inner.width
            },
            height: if rows < inner.height {
                rows
            } else {
                inner.height
            },
            ..inner
        }),
        r.within(inner),
{
    let width: u16 = if cols < inner.width {
        cols
    } else {
        inner.width
    };
    let height: u16 = if rows < inner.height {
        rows
    } else {
        inner.height
    };
    Rect { x: inner.x, y: inner.y, width, height }
}

impl App {
    /// What is drawn over the screen. Over a terminal tab it is only what can be
    /// asked for there: a question asked on a screen nobody is looking at cannot
    /// be told from a key that did nothing.
    pub open spec fn covered_by(&self) -> Option<Mode> {
        if self.mode == Mode::List {
            None
        } else if self.tab == 0 || self.mode == Mode::Launch || self.mode == Mode::LaunchCwd || self.mode
            == Mode::QuitConfirm || self.mode == Mode::RenameTab {
            Some(self.mode)
        } else {
            None
        }
    }

    /// What is drawn over the screen.
    pub fn modal(&self) -> (r: Option<Mode>)
        ensures
            r == self.covered_by(),
    {
        if self.mode == Mode::List {
            return None;
        }
        if self.tab == 0 || self.mode == Mode::Launch || self.mode == Mode::LaunchCwd || self.mode == Mode::QuitConfirm
            || self.mode == Mode::RenameTab {
            Some(self.mode)
        } else {
            None
        }
    }
}

/// What is asked for on the dashboard covers it, and over a terminal only what can be
/// asked for there does.
pub proof fn only_what_was_asked_here_covers(app: App)
    ensures
        app.mode == Mode::List ==> app.covered_by() is None,
        app.mode != Mode::List && app.tab == 0 ==> app.covered_by() == Some(app.mode),
        app.tab > 0 && (app.mode == Mode::DeleteConfirm || app.mode == Mode::KillConfirm || app.mode == Mode::Settings
            || app.mode == Mode::Help) ==> app.covered_by() is None,
        app.mode == Mode::QuitConfirm ==> app.covered_by() == Some(Mode::QuitConfirm),
        app.covered_by() matches Some(m) ==> m == app.mode,
{
}

} // verus!
