//! Filtering the table by what is typed.

use vstd::prelude::*;

use crate::app::App;
use crate::footer::Desk;
use crate::modals::options::{caret, field_line};
use crate::quota::maybe;
use crate::styled::{blank, line_of, nothing, Ink, Line, LineView, Text};
use crate::text::{cat, count, cut, dec, decimal, truncate};

verus! {

/// What is being searched, and whether the answer on screen is final: a mark, its
/// ink and a sentence. A scan takes long enough to be seen, and to say nothing
/// would read as no transcript matching while it runs.
pub open spec fn scan_state(desk: Desk) -> (Seq<char>, Ink, Seq<char>) {
    if !desk.search_content {
        ("○"@, Ink::Dim, "Columns only — Tab also searches transcripts"@)
    } else if desk.scanning {
        ("◌"@, Ink::Accent, "Searching transcripts…"@)
    } else {
        (
            "●"@,
            Ink::Low,
            if desk.scan_hits > 0 {
                "Transcripts: "@ + dec(desk.scan_hits as nat) + " matched"@
            } else if desk.search@.len() < 3 {
                "Transcripts: type three characters"@
            } else {
                "Transcripts: no matches"@
            },
        )
    }
}

/// The filter as it is typed: what it leaves of the table, what is searched, and
/// the line of the selected session's transcript that matches.
pub open spec fn search_lines(
    desk: Desk,
    shown: nat,
    total: nat,
    snippet: Option<Seq<char>>,
    history: bool,
) -> Seq<LineView> {
    let (mark, ink, says) = scan_state(desk);
    let top = nothing().push(caret(desk.search@)).push(
        blank().with(
            " "@ + dec(shown) + " of "@ + dec(total) + " session"@ + (if total == 1 {
                ""@
            } else {
                "s"@
            }),
            Ink::Dim,
        ),
    ).push(blank().with(" "@ + mark + " "@, ink).with(cut(says, 58), ink));
    let mid = match snippet {
        Some(s) => top.push(blank().with("   "@ + cut(s, 55), Ink::Value)),
        None => top,
    };
    mid.push(
        blank().with(
            if history {
                " Enter apply   ↑/↓ past searches   Esc cancel"@
            } else {
                " Enter apply   Esc cancel"@
            },
            Ink::Dim,
        ),
    )
}

impl App {
    /// The filter as it is typed. `snippet` is the line of the selected session's
    /// transcript that matches, and `history` says whether there are earlier
    /// searches to bring back.
    pub fn search_panel(&self, snippet: Option<&str>, history: bool) -> (r: Text)
        ensures
            r@ == search_lines(self.desk, self.visible@.len(), self.sessions@.len(), maybe(snippet), history),
    {
        let desk = &self.desk;
        let mut t = Text::new();
        t.push(field_line(desk.search.as_str()));
        let mut s = cat(" ", decimal(self.visible.len() as u128).as_str());
        s.append(" of ");
        s.append(decimal(self.sessions.len() as u128).as_str());
        s.append(" session");
        s.append(
            if self.sessions.len() == 1 {
                ""
            } else {
                "s"
            },
        );
        t.push(line_of(s.as_str(), Ink::Dim));
        let mark = if !desk.search_content {
            "○"
        } else if desk.scanning {
            "◌"
        } else {
            "●"
        };
        let ink = if !desk.search_content {
            Ink::Dim
        } else if desk.scanning {
            Ink::Accent
        } else {
            Ink::Low
        };
        let says = if !desk.search_content {
            "Columns only — Tab also searches transcripts".to_owned()
        } else if desk.scanning {
            "Searching transcripts…".to_owned()
        } else if desk.scan_hits > 0 {
            let mut s = cat("Transcripts: ", decimal(desk.scan_hits as u128).as_str());
            s.append(" matched");
            s
        } else if count(desk.search.as_str()) < 3 {
            "Transcripts: type three characters".to_owned()
        } else {
            "Transcripts: no matches".to_owned()
        };
        let mut l = Line::new();
        let mut m = cat(" ", mark);
        m.append(" ");
        l.put(m.as_str(), ink);
        l.put(truncate(says.as_str(), 58).as_str(), ink);
        t.push(l);
        match snippet {
            Some(text) => {
                t.push(line_of(cat("   ", truncate(text, 55).as_str()).as_str(), Ink::Value));
            },
            None => {},
        }
        if history {
            t.push(line_of(" Enter apply   ↑/↓ past searches   Esc cancel", Ink::Dim));
        } else {
            t.push(line_of(" Enter apply   Esc cancel", Ink::Dim));
        }
        t
    }
}

/// The filter says how many of how many sessions it leaves, what is searched and
/// whether that is done, and shows the line that matches.
pub proof fn a_search_says_what_it_leaves(desk: Desk, shown: nat, total: nat, snippet: Option<Seq<char>>, history: bool)
    ensures
        ({
            let t = search_lines(desk, shown, total, snippet, history);
            &&& t[0].spans[1].text == desk.search@
            &&& total == 1 ==> t[1].spans[0].text == " "@ + dec(shown) + " of "@ + dec(total) + " session"@ + ""@
            &&& total != 1 ==> t[1].spans[0].text == " "@ + dec(shown) + " of "@ + dec(total) + " session"@ + "s"@
            &&& !desk.search_content ==> t[2].spans[0].text == " "@ + "○"@ + " "@
            &&& desk.search_content && desk.scanning ==> t[2].spans[0].text == " "@ + "◌"@ + " "@
            &&& desk.search_content && !desk.scanning ==> t[2].spans[0].text == " "@ + "●"@ + " "@
            &&& desk.search_content && !desk.scanning && desk.scan_hits > 0 ==> t[2].spans[1].text == cut(
                "Transcripts: "@ + dec(desk.scan_hits as nat) + " matched"@,
                58,
            )
            &&& snippet matches Some(s) ==> t.len() == 5 && t[3].spans[0].text == "   "@ + cut(s, 55)
            &&& snippet is None ==> t.len() == 4
        }),
{
}

} // verus!
