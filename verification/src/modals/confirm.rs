//! The questions asked before something that cannot be taken back, and what is
//! said where it cannot be done.

use vstd::prelude::*;

use crate::app::App;
use crate::bar::column;
use crate::geometry::Rect;
use crate::keyboard::{Key, KeyCode};
use crate::model::{key_of, Session};
use crate::select::{resume_command, resume_words};
use crate::styled::{blank, line_of, nothing, Ink, LineView, Text};
use crate::text::{cat, chars_of, cut, dec, decimal, truncate};

verus! {

pub const RESUME_KEYS: &'static str = " [y] resume anyway    [n / Esc] cancel";

pub const DELETE_KEYS: &'static str = "  [y] delete    [n / Esc] cancel";

/// The one chip on a dialog that has nothing to decide, only something to say.
pub const DISMISS_KEYS: &'static str = "  [any key] dismiss";

pub const KILL_KEYS: &'static str = "  [y] terminate    [n / Esc] cancel";

pub const QUIT_KEYS: &'static str = "  [y] quit anyway    [n / Esc] stay    [A] back to the agent";

/// A question or a refusal: its title, its lines, and the last of them, which has
/// the keys.
pub struct Dialog {
    pub title: String,
    pub text: Text,
    pub hint: String,
    /// The chips of the last line, and the key each stands for.
    pub chips: Vec<(&'static str, Key)>,
}

impl Dialog {
    /// Whether this is the dialog with these lines over its keys.
    pub open spec fn says(&self, title: Seq<char>, lines: Seq<LineView>, hint: Seq<char>) -> bool {
        &&& self.title@ == title
        &&& self.text@ == lines.push(blank()).push(blank().with(hint, Ink::Dim))
        &&& self.hint@ == hint
    }

    /// Whether its chips are a yes and a no.
    pub open spec fn asks(&self) -> bool {
        &&& self.chips@.len() == 2
        &&& self.chips@[0].0@ == "[y]"@ && self.chips@[0].1 == Key::plain(KeyCode::Char('y'))
        &&& self.chips@[1].0@ == "[n / Esc]"@ && self.chips@[1].1 == Key::plain(KeyCode::Esc)
    }

    /// Whether it only has to be dismissed.
    pub open spec fn tells(&self) -> bool {
        &&& self.chips@.len() == 1
        &&& self.chips@[0].0@ == "[any key]"@ && self.chips@[0].1 == Key::plain(KeyCode::Esc)
    }
}

fn yes_or_no() -> (r: Vec<(&'static str, Key)>)
    ensures
        r@.len() == 2,
        r@[0].0@ == "[y]"@ && r@[0].1 == Key::plain(KeyCode::Char('y')),
        r@[1].0@ == "[n / Esc]"@ && r@[1].1 == Key::plain(KeyCode::Esc),
{
    let mut v: Vec<(&'static str, Key)> = Vec::new();
    v.push(("[y]", Key::of(KeyCode::Char('y'))));
    v.push(("[n / Esc]", Key::of(KeyCode::Esc)));
    v
}

fn dismiss() -> (r: Vec<(&'static str, Key)>)
    ensures
        r@.len() == 1,
        r@[0].0@ == "[any key]"@ && r@[0].1 == Key::plain(KeyCode::Esc),
{
    let mut v: Vec<(&'static str, Key)> = Vec::new();
    v.push(("[any key]", Key::of(KeyCode::Esc)));
    v
}

pub(crate) fn dialog(title: &str, lines: Text, hint: &str, chips: Vec<(&'static str, Key)>) -> (r: Dialog)
    ensures
        r.says(title@, lines@, hint@),
        r.chips == chips,
{
    let mut text = lines;
    text.gap();
    text.push(line_of(hint, Ink::Dim));
    Dialog { title: title.to_owned(), text, hint: hint.to_owned(), chips }
}

/// Whether `p` stands at `i` in `s`.
pub open spec fn found_at(s: Seq<char>, p: Seq<char>, i: int) -> bool {
    0 <= i && i + p.len() <= s.len() && s.subrange(i, i + p.len()) == p
}

/// The first place from `i` on where `p` stands in `s`.
pub open spec fn found(s: Seq<char>, p: Seq<char>, i: int) -> Option<int>
    decreases s.len() + 1 - i,
{
    if i < 0 || i > s.len() {
        None
    } else if found_at(s, p, i) {
        Some(i)
    } else {
        found(s, p, i + 1)
    }
}

fn stands(s: &Vec<char>, p: &Vec<char>, i: usize) -> (r: bool)
    requires
        i <= s@.len(),
    ensures
        r == found_at(s@, p@, i as int),
{
    let (n, m): (usize, usize) = (s.len(), p.len());
    if n - i < m {
        return false;
    }
    let mut k: usize = 0;
    while k < m
        invariant
            k <= m,
            m == p@.len(),
            i + m <= n,
            n == s@.len(),
            forall|j: int| 0 <= j < k ==> #[trigger] p@[j] == s@[i + j],
        decreases m - k,
    {
        if s[i + k] != p[k] {
            assert(s@.subrange(i as int, i + m)[k as int] == s@[i + k]);
            return false;
        }
        k += 1;
    }
    assert(s@.subrange(i as int, i + m) =~= p@);
    true
}

/// Where `p` first stands in `s`, counted in characters.
pub fn find(s: &str, p: &str) -> (r: Option<usize>)
    ensures
        match r {
            Some(i) => found(s@, p@, 0) == Some(i as int),
            None => found(s@, p@, 0) is None,
        },
{
    let (sv, pv) = (chars_of(s), chars_of(p));
    let n: usize = sv.len();
    let mut i: usize = 0;
    while i <= n
        invariant
            i <= n + 1,
            n == sv@.len(),
            sv@ == s@,
            pv@ == p@,
            found(s@, p@, 0) == found(s@, p@, i as int),
        decreases n + 1 - i,
    {
        if stands(&sv, &pv, i) {
            return Some(i);
        }
        if i == n {
            assert(found(s@, p@, n + 1) is None);
            return None;
        }
        i += 1;
    }
    None
}

/// What is found stands there.
pub proof fn what_is_found_stands_there(s: Seq<char>, p: Seq<char>, i: int)
    ensures
        match found(s, p, i) {
            Some(at) => i <= at && found_at(s, p, at),
            None => forall|k: int| 0 <= i <= k <= s.len() ==> !found_at(s, p, k),
        },
    decreases s.len() + 1 - i,
{
    if 0 <= i <= s.len() && !found_at(s, p, i) {
        what_is_found_stands_there(s, p, i + 1);
    }
}

/// Where the first `n` chips of a hint can be clicked, the hint being drawn on
/// `row` of `inner`.
pub open spec fn chip_hits(
    inner: Rect,
    row: u16,
    hint: Seq<char>,
    chips: Seq<(&'static str, Key)>,
    n: int,
) -> Seq<(u16, u16, u16, Key)>
    decreases n,
{
    if n <= 0 {
        Seq::empty()
    } else {
        let before = chip_hits(inner, row, hint, chips, n - 1);
        let chip = chips[n - 1].0@;
        match found(hint, chip, 0) {
            Some(at) => before.push(
                (column(inner.y + row), column(inner.x + at), column(inner.x + at + chip.len()), chips[n - 1].1),
            ),
            None => before,
        }
    }
}

/// Where the chips of a hint can be clicked. They are found in the text that was
/// drawn, rather than by counting columns that would have to keep in step with
/// the wording.
pub fn confirm_chips(inner: Rect, row: u16, hint: &str, chips: &Vec<(&'static str, Key)>) -> (r: Vec<(u16, u16, u16, Key)>)
    ensures
        r@ == chip_hits(inner, row, hint@, chips@, chips@.len() as int),
{
    let mut hits: Vec<(u16, u16, u16, Key)> = Vec::new();
    let mut i: usize = 0;
    while i < chips.len()
        invariant
            i <= chips@.len(),
            hits@ == chip_hits(inner, row, hint@, chips@, i as int),
        decreases chips@.len() - i,
    {
        let chip = chips[i].0;
        match find(hint, chip) {
            Some(at) => {
                let n: usize = crate::text::count(chip);
                let x: u16 = across(inner.x, at);
                hits.push((inner.y.saturating_add(row), x, across(x, n), chips[i].1));
            },
            None => {},
        }
        i += 1;
    }
    hits
}

fn across(x: u16, by: usize) -> (r: u16)
    ensures
        r == column(x + by),
{
    if by > (u16::MAX - x) as usize {
        u16::MAX
    } else {
        x + by as u16
    }
}

/// What is to be done to every marked session.
#[derive(Debug, Clone, Copy, PartialEq, Eq, Structural)]
pub enum BatchKind {
    Delete,
    Kill,
}

/// The places of the marked among the first `n` sessions.
pub open spec fn marked_places(sessions: Seq<Session>, marked: Set<Seq<char>>, n: int) -> Seq<int>
    decreases n,
{
    if n <= 0 {
        Seq::empty()
    } else if marked.contains(key_of(sessions[n - 1])) {
        marked_places(sessions, marked, n - 1).push(n - 1)
    } else {
        marked_places(sessions, marked, n - 1)
    }
}

/// The names of the first `n` of the marked.
pub open spec fn marked_lines(sessions: Seq<Session>, at: Seq<int>, n: int) -> Seq<LineView>
    decreases n,
{
    if n <= 0 {
        nothing()
    } else {
        marked_lines(sessions, at, n - 1).push(blank().with("    · "@ + sessions[at[n - 1]].label(), Ink::Dim))
    }
}

/// What is asked before something is done to every marked session.
pub open spec fn batch_lines(sessions: Seq<Session>, at: Seq<int>, kind: BatchKind) -> Seq<LineView> {
    let n = at.len();
    let top = nothing().push(
        blank().with(
            "  "@ + dec(n) + " marked "@ + (match kind {
                BatchKind::Delete => "sessions"@,
                BatchKind::Kill => "live sessions"@,
            }),
            Ink::Value,
        ),
    ).push(blank());
    let all = top + marked_lines(
        sessions,
        at,
        if n < 8 {
            n as int
        } else {
            8
        },
    );
    let all = if n > 8 {
        all.push(blank().with("    … and "@ + dec((n - 8) as nat) + " more"@, Ink::Dim))
    } else {
        all
    };
    all.push(blank()).push(
        blank().with(
            match kind {
                BatchKind::Delete => "  This permanently removes their transcripts from disk."@,
                BatchKind::Kill => "  Unsaved work in the agents may be interrupted."@,
            },
            Ink::Mid,
        ),
    )
}

/// The verb of what is to be done.
pub open spec fn batch_verb(kind: BatchKind) -> Seq<char> {
    match kind {
        BatchKind::Delete => "delete"@,
        BatchKind::Kill => "terminate"@,
    }
}

/// Whether a session stands in the way of what is to be done.
pub open spec fn in_the_way(s: Session, kind: BatchKind) -> bool {
    match kind {
        BatchKind::Delete => s.running(),
        BatchKind::Kill => s.pid() is None,
    }
}

/// The first of the marked, from `i` on, that stands in the way.
pub open spec fn first_in_the_way(sessions: Seq<Session>, at: Seq<int>, kind: BatchKind, i: int) -> Option<int>
    decreases at.len() - i,
{
    if i < 0 || i >= at.len() {
        None
    } else if in_the_way(sessions[at[i]], kind) {
        Some(at[i])
    } else {
        first_in_the_way(sessions, at, kind, i + 1)
    }
}

/// Why not every marked session can be dealt with.
pub open spec fn batch_blocked_lines(sessions: Seq<Session>, at: Seq<int>, kind: BatchKind, deleting: bool) -> Seq<LineView> {
    seq![
        blank().with("  "@ + dec(at.len()) + " marked sessions"@, Ink::Value),
        blank(),
        blank().with(
            "  Not all can be "@ + (if deleting {
                "deleted"@
            } else {
                "killed"@
            }) + "."@,
            Ink::Plain,
        ),
        match first_in_the_way(sessions, at, kind, 0) {
            Some(i) => blank().with(
                "  · "@ + sessions[i].label() + " "@ + (match kind {
                    BatchKind::Delete => "running — stop the agent first"@,
                    BatchKind::Kill => "has no locally controllable process"@,
                }),
                Ink::Dim,
            ),
            None => blank().with("  At least one is not ready."@, Ink::Plain),
        },
        blank(),
        blank().with("  e.g. unmark the running / remote sessions first."@, Ink::Dim),
    ]
}

/// What is asked before a session that is running is resumed.
pub open spec fn resume_lines(s: Session) -> Seq<LineView> {
    seq![
        blank().with(" "@ + cut(s.label(), 40) + " is still running."@, Ink::Mid),
        blank(),
        blank().with(" Resuming starts a second agent on the same transcript,"@, Ink::Plain),
        blank().with(" which neither of them will know about."@, Ink::Plain),
        blank(),
        blank().with(
            "   "@ + cut(
                match resume_words(s) {
                    Some(w) => w,
                    None => ""@,
                },
                56,
            ),
            Ink::Value,
        ),
    ]
}

/// Places as numbers.
pub open spec fn as_places(v: Seq<usize>) -> Seq<int> {
    v.map_values(|i: usize| i as int)
}

impl App {
    /// The places of the marked sessions.
    pub open spec fn marked_at(&self) -> Seq<int> {
        marked_places(self.sessions@, self.desk.marked@, self.sessions@.len() as int)
    }

    /// The places of the marked sessions.
    pub fn marked_sessions(&self) -> (r: Vec<usize>)
        ensures
            as_places(r@) == self.marked_at(),
            forall|i: int| 0 <= i < r@.len() ==> (#[trigger] r@[i]) < self.sessions@.len(),
    {
        let mut at: Vec<usize> = Vec::new();
        let mut i: usize = 0;
        assert(as_places(at@) =~= Seq::<int>::empty());
        while i < self.sessions.len()
            invariant
                i <= self.sessions@.len(),
                as_places(at@) == marked_places(self.sessions@, self.desk.marked@, i as int),
                forall|k: int| 0 <= k < at@.len() ==> (#[trigger] at@[k]) < self.sessions@.len(),
            decreases self.sessions@.len() - i,
        {
            let key = self.sessions[i].key();
            if self.desk.marked.contains(key.as_str()) {
                let ghost was = at@;
                at.push(i);
                assert(as_places(at@) =~= as_places(was).push(i as int));
            }
            i += 1;
        }
        at
    }

    /// What is asked before a session that is running is resumed.
    pub fn resume_confirm(&self) -> (r: Option<Dialog>)
        ensures
            match (r, self.session_at()) {
                (Some(d), Some(s)) => d.asks() && d.says(
                    "Resume a running session?"@,
                    resume_lines(s),
                    RESUME_KEYS@,
                ),
                (None, None) => true,
                _ => false,
            },
    {
        let s = match self.selected_session() {
            Some(s) => s,
            None => {
                return None;
            },
        };
        let command = match resume_command(s) {
            Some(c) => c,
            None => "".to_owned(),
        };
        let mut t = Text::new();
        let mut head = cat(" ", truncate(s.display_label(), 40).as_str());
        head.append(" is still running.");
        t.push(line_of(head.as_str(), Ink::Mid));
        t.gap();
        t.push(line_of(" Resuming starts a second agent on the same transcript,", Ink::Plain));
        t.push(line_of(" which neither of them will know about.", Ink::Plain));
        t.gap();
        t.push(line_of(cat("   ", truncate(command.as_str(), 56).as_str()).as_str(), Ink::Value));
        assert(t@ =~= resume_lines(*s));
        Some(dialog("Resume a running session?", t, RESUME_KEYS, yes_or_no()))
    }

    /// What is asked before a session is deleted.
    pub fn delete_confirm(&self) -> (r: Option<Dialog>)
        ensures
            match (r, self.session_at()) {
                (Some(d), Some(s)) => d.asks() && d.says(
                    "Delete session?"@,
                    seq![
                        blank().with("  "@ + s.label(), Ink::Value),
                        blank().with("  "@ + s.session_id@, Ink::Dim),
                        blank(),
                        blank().with("  This permanently removes the transcript from disk."@, Ink::Mid),
                    ],
                    DELETE_KEYS@,
                ),
                (None, None) => true,
                _ => false,
            },
    {
        let s = match self.selected_session() {
            Some(s) => s,
            None => {
                return None;
            },
        };
        let mut t = Text::new();
        t.push(line_of(cat("  ", s.display_label()).as_str(), Ink::Value));
        t.push(line_of(cat("  ", s.session_id.as_str()).as_str(), Ink::Dim));
        t.gap();
        t.push(line_of("  This permanently removes the transcript from disk.", Ink::Mid));
        let ghost says = t@;
        let d = dialog("Delete session?", t, DELETE_KEYS, yes_or_no());
        assert(says =~= seq![says[0], says[1], says[2], says[3]]);
        Some(d)
    }

    /// What is said where a session cannot be deleted.
    pub fn delete_blocked(&self) -> (r: Option<Dialog>)
        ensures
            match (r, self.session_at()) {
                (Some(d), Some(s)) => d.tells() && d.says(
                    "Cannot delete"@,
                    seq![
                        blank().with("  "@ + s.label(), Ink::Value),
                        blank(),
                        blank().with("  This session is still running."@, Ink::Plain),
                        blank().with("  Stop the agent first, then delete it."@, Ink::Plain),
                    ],
                    DISMISS_KEYS@,
                ),
                (None, None) => true,
                _ => false,
            },
    {
        let s = match self.selected_session() {
            Some(s) => s,
            None => {
                return None;
            },
        };
        let mut t = Text::new();
        t.push(line_of(cat("  ", s.display_label()).as_str(), Ink::Value));
        t.gap();
        t.push(line_of("  This session is still running.", Ink::Plain));
        t.push(line_of("  Stop the agent first, then delete it.", Ink::Plain));
        let ghost says = t@;
        let d = dialog("Cannot delete", t, DISMISS_KEYS, dismiss());
        assert(says =~= seq![says[0], says[1], says[2], says[3]]);
        Some(d)
    }

    /// What is asked before an agent is ended.
    pub fn kill_confirm(&self) -> (r: Option<Dialog>)
        ensures
            match (r, self.session_at()) {
                (Some(d), Some(s)) => d.asks() && d.says(
                    "Terminate session?"@,
                    seq![
                        blank().with("  "@ + s.label(), Ink::Value),
                        blank().with("  "@ + s.session_id@, Ink::Dim),
                        blank(),
                        blank().with("  Send a termination signal to this agent process?"@, Ink::Mid),
                        blank().with("  Unsaved work in the agent may be interrupted."@, Ink::Plain),
                    ],
                    KILL_KEYS@,
                ),
                (None, None) => true,
                _ => false,
            },
    {
        let s = match self.selected_session() {
            Some(s) => s,
            None => {
                return None;
            },
        };
        let mut t = Text::new();
        t.push(line_of(cat("  ", s.display_label()).as_str(), Ink::Value));
        t.push(line_of(cat("  ", s.session_id.as_str()).as_str(), Ink::Dim));
        t.gap();
        t.push(line_of("  Send a termination signal to this agent process?", Ink::Mid));
        t.push(line_of("  Unsaved work in the agent may be interrupted.", Ink::Plain));
        let ghost says = t@;
        let d = dialog("Terminate session?", t, KILL_KEYS, yes_or_no());
        assert(says =~= seq![says[0], says[1], says[2], says[3], says[4]]);
        Some(d)
    }

    /// What is said where an agent cannot be ended from here.
    pub fn kill_blocked(&self) -> (r: Option<Dialog>)
        ensures
            match (r, self.session_at()) {
                (Some(d), Some(s)) => d.tells() && d.says(
                    "Cannot terminate"@,
                    seq![
                        blank().with("  "@ + s.label(), Ink::Value),
                        blank(),
                        blank().with("  This session has no locally controllable process."@, Ink::Plain),
                        blank().with("  It may be running in a remote or shared host."@, Ink::Plain),
                    ],
                    DISMISS_KEYS@,
                ),
                (None, None) => true,
                _ => false,
            },
    {
        let s = match self.selected_session() {
            Some(s) => s,
            None => {
                return None;
            },
        };
        let mut t = Text::new();
        t.push(line_of(cat("  ", s.display_label()).as_str(), Ink::Value));
        t.gap();
        t.push(line_of("  This session has no locally controllable process.", Ink::Plain));
        t.push(line_of("  It may be running in a remote or shared host.", Ink::Plain));
        let ghost says = t@;
        let d = dialog("Cannot terminate", t, DISMISS_KEYS, dismiss());
        assert(says =~= seq![says[0], says[1], says[2], says[3]]);
        Some(d)
    }

    /// What is asked before something is done to every marked session.
    pub fn batch_confirm(&self, kind: BatchKind) -> (r: Dialog)
        ensures
            r.asks(),
            r.says(
                batch_verb(kind) + " all?"@,
                batch_lines(self.sessions@, self.marked_at(), kind),
                "  [y] "@ + batch_verb(kind) + " all    [n / Esc] cancel"@,
            ),
    {
        let at = self.marked_sessions();
        let n: usize = at.len();
        let ghost places = as_places(at@);
        let mut t = Text::new();
        let mut head = cat("  ", decimal(n as u128).as_str());
        head.append(" marked ");
        head.append(
            match kind {
                BatchKind::Delete => "sessions",
                BatchKind::Kill => "live sessions",
            },
        );
        t.push(line_of(head.as_str(), Ink::Value));
        t.gap();
        let ghost top = t@;
        let most: usize = if n < 8 {
            n
        } else {
            8
        };
        assert(top + marked_lines(self.sessions@, places, 0) =~= top);
        let mut i: usize = 0;
        while i < most
            invariant
                i <= most <= n,
                n == at@.len(),
                places == as_places(at@),
                forall|k: int| 0 <= k < at@.len() ==> (#[trigger] at@[k]) < self.sessions@.len(),
                t@ == top + marked_lines(self.sessions@, places, i as int),
            decreases most - i,
        {
            assert(places[i as int] == at@[i as int]);
            t.push(line_of(cat("    · ", self.sessions[at[i]].display_label()).as_str(), Ink::Dim));
            assert(t@ =~= top + marked_lines(self.sessions@, places, i + 1));
            i += 1;
        }
        if n > 8 {
            let mut s = cat("    … and ", decimal((n - 8) as u128).as_str());
            s.append(" more");
            t.push(line_of(s.as_str(), Ink::Dim));
        }
        t.gap();
        let (warning, verb) = match kind {
            BatchKind::Delete => ("  This permanently removes their transcripts from disk.", "delete"),
            BatchKind::Kill => ("  Unsaved work in the agents may be interrupted.", "terminate"),
        };
        t.push(line_of(warning, Ink::Mid));
        assert(t@ == batch_lines(self.sessions@, places, kind));
        let title = cat(verb, " all?");
        let mut hint = cat("  [y] ", verb);
        hint.append(" all    [n / Esc] cancel");
        dialog(title.as_str(), t, hint.as_str(), yes_or_no())
    }

    /// What is said where not every marked session can be dealt with.
    pub fn batch_blocked(&self, kind: BatchKind, deleting: bool) -> (r: Dialog)
        ensures
            r.tells(),
            r.says(
                if deleting {
                    "Cannot delete all"@
                } else {
                    "Cannot terminate all"@
                },
                batch_blocked_lines(self.sessions@, self.marked_at(), kind, deleting),
                DISMISS_KEYS@,
            ),
    {
        let at = self.marked_sessions();
        let n: usize = at.len();
        let ghost places = as_places(at@);
        let mut t = Text::new();
        let mut head = cat("  ", decimal(n as u128).as_str());
        head.append(" marked sessions");
        t.push(line_of(head.as_str(), Ink::Value));
        t.gap();
        let mut not = cat(
            "  Not all can be ",
            if deleting {
                "deleted"
            } else {
                "killed"
            },
        );
        not.append(".");
        t.push(line_of(not.as_str(), Ink::Plain));
        let mut i: usize = 0;
        let mut name: Option<usize> = None;
        while i < n && name.is_none()
            invariant
                i <= n,
                n == at@.len(),
                places == as_places(at@),
                forall|k: int| 0 <= k < at@.len() ==> (#[trigger] at@[k]) < self.sessions@.len(),
                match name {
                    Some(s) => first_in_the_way(self.sessions@, places, kind, 0) == Some(s as int) && s
                        < self.sessions@.len(),
                    None => first_in_the_way(self.sessions@, places, kind, 0) == first_in_the_way(
                        self.sessions@,
                        places,
                        kind,
                        i as int,
                    ),
                },
            decreases (if name is Some {
                0
            } else {
                n - i + 1
            }),
        {
            assert(places[i as int] == at@[i as int]);
            let s = &self.sessions[at[i]];
            let blocks = match kind {
                BatchKind::Delete => s.is_running(),
                BatchKind::Kill => s.root_pid().is_none(),
            };
            if blocks {
                name = Some(at[i]);
            } else {
                i += 1;
            }
        }
        match name {
            Some(k) => {
                let mut s = cat("  · ", self.sessions[k].display_label());
                s.append(" ");
                s.append(
                    match kind {
                        BatchKind::Delete => "running — stop the agent first",
                        BatchKind::Kill => "has no locally controllable process",
                    },
                );
                t.push(line_of(s.as_str(), Ink::Dim));
            },
            None => {
                t.push(line_of("  At least one is not ready.", Ink::Plain));
            },
        }
        t.gap();
        t.push(line_of("  e.g. unmark the running / remote sessions first.", Ink::Dim));
        assert(t@ =~= batch_blocked_lines(self.sessions@, places, kind, deleting));
        dialog(
            if deleting {
                "Cannot delete all"
            } else {
                "Cannot terminate all"
            },
            t,
            DISMISS_KEYS,
            dismiss(),
        )
    }
}

/// What is asked before the dashboard is left with an agent on a terminal it owns.
pub open spec fn quit_lines(label: Seq<char>) -> Seq<LineView> {
    seq![
        blank().with("  "@ + label, Ink::Value),
        blank(),
        blank().with("  This agent is running on a terminal cctop owns,"@, Ink::Mid),
        blank().with("  and quitting ends it."@, Ink::Mid),
        blank().with("  Exit the agent itself to leave it cleanly."@, Ink::Plain),
    ]
}

/// What is asked before the dashboard is left with an agent on a terminal it owns.
pub fn quit_confirm(label: &str) -> (r: Dialog)
    ensures
        r.says("Quit and stop the agent?"@, quit_lines(label@), QUIT_KEYS@),
        r.chips@.len() == 3,
        r.chips@[0].0@ == "[y]"@ && r.chips@[0].1 == Key::plain(KeyCode::Char('y')),
        r.chips@[1].0@ == "[n / Esc]"@ && r.chips@[1].1 == Key::plain(KeyCode::Esc),
        r.chips@[2].0@ == "[A]"@ && r.chips@[2].1 == Key::plain(KeyCode::Char('A')),
{
    let mut t = Text::new();
    t.push(line_of(cat("  ", label).as_str(), Ink::Value));
    t.gap();
    t.push(line_of("  This agent is running on a terminal cctop owns,", Ink::Mid));
    t.push(line_of("  and quitting ends it.", Ink::Mid));
    t.push(line_of("  Exit the agent itself to leave it cleanly.", Ink::Plain));
    assert(t@ =~= quit_lines(label@));
    let mut chips = yes_or_no();
    chips.push(("[A]", Key::of(KeyCode::Char('A'))));
    dialog("Quit and stop the agent?", t, QUIT_KEYS, chips)
}

/// What is offered where the multiplexer is not installed.
pub open spec fn install_lines(command: Seq<char>) -> Seq<LineView> {
    seq![
        blank().with(" rmux is not installed."@, Ink::Mid),
        blank(),
        blank().with(" With it, agents run inside rmux and survive cctop"@, Ink::Plain),
        blank().with(" closing. Without it, quitting takes them with it."@, Ink::Plain),
        blank(),
        blank().with("   "@ + cut(command, 56), Ink::Value),
        blank(),
        blank().with(" y to install · any other key to start without it"@, Ink::Dim),
    ]
}

/// What is offered where the multiplexer is not installed: its title and its
/// lines.
pub fn rmux_install(command: &str, manager: &str) -> (r: (String, Text))
    ensures
        r.0@ == "Install rmux with "@ + manager@ + "?"@,
        r.1@ == install_lines(command@),
{
    let mut t = Text::new();
    t.push(line_of(" rmux is not installed.", Ink::Mid));
    t.gap();
    t.push(line_of(" With it, agents run inside rmux and survive cctop", Ink::Plain));
    t.push(line_of(" closing. Without it, quitting takes them with it.", Ink::Plain));
    t.gap();
    t.push(line_of(cat("   ", truncate(command, 56).as_str()).as_str(), Ink::Value));
    t.gap();
    t.push(line_of(" y to install · any other key to start without it", Ink::Dim));
    assert(t@ =~= install_lines(command@));
    let mut title = cat("Install rmux with ", manager);
    title.append("?");
    (title, t)
}

/// The marked sessions are those whose key is marked, in the table's order.
pub proof fn the_marked_are_those_marked(sessions: Seq<Session>, marked: Set<Seq<char>>, n: int, i: int)
    requires
        0 <= n <= sessions.len(),
    ensures
        marked_places(sessions, marked, n).contains(i) <==> 0 <= i < n && marked.contains(key_of(sessions[i])),
        forall|a: int, b: int|
            0 <= a < b < marked_places(sessions, marked, n).len() ==> #[trigger] marked_places(sessions, marked, n)[a]
                < #[trigger] marked_places(sessions, marked, n)[b],
        forall|a: int|
            0 <= a < marked_places(sessions, marked, n).len() ==> 0 <= #[trigger] marked_places(sessions, marked, n)[a] < n,
    decreases n,
{
    let all = marked_places(sessions, marked, n);
    if n > 0 {
        let before = marked_places(sessions, marked, n - 1);
        the_marked_are_those_marked(sessions, marked, n - 1, i);
        if marked.contains(key_of(sessions[n - 1])) {
            assert(all == before.push(n - 1));
            assert(all[before.len() as int] == n - 1);
            if before.contains(i) {
                let k = choose|k: int| 0 <= k < before.len() && before[k] == i;
                assert(all[k] == i);
            }
            if all.contains(i) {
                let k = choose|k: int| 0 <= k < all.len() && all[k] == i;
                if k < before.len() {
                    assert(before[k] == i);
                }
            }
            assert forall|a: int, b: int| 0 <= a < b < all.len() implies #[trigger] all[a] < #[trigger] all[b] by {
                assert(all[a] == before[a]);
                if b < before.len() {
                    assert(before[a] < before[b]);
                }
            }
        }
    } else {
        assert(all.len() == 0);
    }
}

proof fn names_are_listed(sessions: Seq<Session>, at: Seq<int>, n: int, i: int)
    requires
        0 <= i < n <= at.len(),
    ensures
        marked_lines(sessions, at, n).len() == n,
        marked_lines(sessions, at, n)[i].spans[0].text == "    · "@ + sessions[at[i]].label(),
    decreases n,
{
    assert(marked_lines(sessions, at, 0).len() == 0);
    if n > 1 {
        names_are_listed(sessions, at, n - 1, if i < n - 1 {
            i
        } else {
            0
        });
    }
}

/// What is asked of the marked sessions says how many there are, names the first of
/// them and counts the others, and says what would be done.
pub proof fn a_batch_is_named_before_it_is_done(sessions: Seq<Session>, at: Seq<int>, kind: BatchKind, i: int)
    requires
        0 <= i < at.len(),
    ensures
        ({
            let t = batch_lines(sessions, at, kind);
            let n = at.len();
            &&& kind == BatchKind::Delete ==> t[0].spans[0].text == "  "@ + dec(n) + " marked "@ + "sessions"@
            &&& kind == BatchKind::Kill ==> t[0].spans[0].text == "  "@ + dec(n) + " marked "@ + "live sessions"@
            &&& i < 8 ==> t[2 + i].spans[0].text == "    · "@ + sessions[at[i]].label()
            &&& n <= 8 ==> t.len() == n + 4
            &&& n > 8 ==> t.len() == 13 && t[10].spans[0].text == "    … and "@ + dec((n - 8) as nat) + " more"@
            &&& kind == BatchKind::Delete ==> t.last().spans[0].text
                == "  This permanently removes their transcripts from disk."@ && batch_verb(kind) == "delete"@
            &&& kind == BatchKind::Kill ==> t.last().spans[0].text == "  Unsaved work in the agents may be interrupted."@
                && batch_verb(kind) == "terminate"@
        }),
{
    let n = if at.len() < 8 {
        at.len() as int
    } else {
        8
    };
    names_are_listed(sessions, at, n, if i < n {
        i
    } else {
        0
    });
}

/// What stands in the way is the first marked session that does: one that runs cannot
/// be deleted, and one that has no process here cannot be stopped.
pub proof fn what_stands_in_the_way_is_named(sessions: Seq<Session>, at: Seq<int>, kind: BatchKind, k: int)
    requires
        0 <= k <= at.len(),
        forall|i: int| 0 <= i < k ==> !in_the_way(sessions[#[trigger] at[i]], kind),
        k < at.len() ==> in_the_way(sessions[at[k]], kind),
    ensures
        k < at.len() ==> first_in_the_way(sessions, at, kind, 0) == Some(at[k]),
        k == at.len() ==> first_in_the_way(sessions, at, kind, 0) is None,
        forall|s: Session| #[trigger] in_the_way(s, BatchKind::Delete) == (s.process is Some || s.inferred_running),
        forall|s: Session| #[trigger] in_the_way(s, BatchKind::Kill) == (s.process is None),
{
    found_on_the_way(sessions, at, kind, 0, k);
}

proof fn found_on_the_way(sessions: Seq<Session>, at: Seq<int>, kind: BatchKind, i: int, k: int)
    requires
        0 <= i <= k <= at.len(),
        forall|i: int| 0 <= i < k ==> !in_the_way(sessions[#[trigger] at[i]], kind),
        k < at.len() ==> in_the_way(sessions[at[k]], kind),
    ensures
        first_in_the_way(sessions, at, kind, i) == if k < at.len() {
            Some(at[k])
        } else {
            None
        },
    decreases k - i,
{
    if i < k {
        assert(!in_the_way(sessions[at[i]], kind));
        found_on_the_way(sessions, at, kind, i + 1, k);
    }
}

/// A chip is clicked on the cells it is written in, for its own key.
pub proof fn a_chip_is_clicked_where_it_is_written(
    inner: Rect,
    row: u16,
    hint: Seq<char>,
    chips: Seq<(&'static str, Key)>,
    n: int,
    i: int,
    at: int,
)
    requires
        0 <= i < n <= chips.len(),
        found(hint, chips[i].0@, 0) == Some(at),
    ensures
        hint.subrange(at, at + chips[i].0@.len()) == chips[i].0@,
        chip_hits(inner, row, hint, chips, n).contains(
            (column(inner.y + row), column(inner.x + at), column(inner.x + at + chips[i].0@.len()), chips[i].1),
        ),
    decreases n,
{
    what_is_found_stands_there(hint, chips[i].0@, 0);
    let one = (column(inner.y + row), column(inner.x + at), column(inner.x + at + chips[i].0@.len()), chips[i].1);
    let all = chip_hits(inner, row, hint, chips, n);
    if i < n - 1 {
        a_chip_is_clicked_where_it_is_written(inner, row, hint, chips, n - 1, i, at);
        let before = chip_hits(inner, row, hint, chips, n - 1);
        let k = choose|k: int| 0 <= k < before.len() && before[k] == one;
        assert(all[k] == one);
    } else {
        assert(all[all.len() - 1] == one);
    }
}

} // verus!
