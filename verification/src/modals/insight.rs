//! What has to be read before it can be shown: a report on every transcript, or one
//! session's conversation.

use vstd::prelude::*;

use crate::figures::{age_text, relative_age};
use crate::geometry::Rect;
use crate::modals::{centered, middle, on_screen};
use crate::model::Session;
use crate::panels::log::{flows, wrap, wrapped};
use crate::quota::maybe;
use crate::reader::less;
use crate::share::{frame_at, spinner_frame};
use crate::styled::{blank, line_of, nothing, Ink, Line, LineView, Text};
use crate::text::{cat, chars_of, dec, decimal, lines, lines_of, same, words};
use crate::transcript::{change_lines, inked, put_inked, Conversation, ToolUse, Turn};

verus! {

/// A spinner and what is being waited for.
pub open spec fn waiting_lines(now: u64, what: Seq<char>) -> Seq<LineView> {
    seq![
        blank(),
        blank().with("  "@ + seq![frame_at(now as int)], Ink::Title).with("  "@ + what, Ink::Value),
    ]
}

fn waiting_text(now: u64, what: &str) -> (r: Text)
    ensures
        r@ == waiting_lines(now, what@),
{
    let mut t = Text::new();
    t.gap();
    let mut s = "  ".to_owned();
    let frame = spinner_frame(now);
    s.push(frame);
    assert(s@ =~= "  "@ + seq![frame]);
    let mut l = line_of(s.as_str(), Ink::Title);
    l.put(cat("  ", what).as_str(), Ink::Value);
    t.push(l);
    assert(t@ =~= waiting_lines(now, what@));
    t
}

/// What a report on every transcript says: its lines, or that it is being made.
pub open spec fn insight_lines(report: Option<Seq<char>>, now: u64) -> Seq<LineView> {
    match report {
        None => waiting_lines(now, "Reading every transcript. This is the slow one."@),
        Some(text) => inked(lines_of(text), ""@, Ink::Value, lines_of(text).len() as int),
    }
}

/// What a report on every transcript says. The spinner is the difference between
/// this wait and a hang.
pub fn insight_text(report: Option<&str>, now: u64) -> (r: Text)
    ensures
        r@ == insight_lines(maybe(report), now),
{
    match report {
        None => waiting_text(now, "Reading every transcript. This is the slow one."),
        Some(text) => {
            let all = lines(text);
            let mut t = Text::new();
            put_inked(&mut t, &all, "", Ink::Value);
            assert(words(all@).len() == all@.len());
            assert(t@ =~= inked(lines_of(text@), ""@, Ink::Value, lines_of(text@).len() as int));
            t
        },
    }
}

/// The title of a report, and its keys.
pub fn insight_frame(optimize: bool, ready: bool) -> (r: (&'static str, &'static str))
    ensures
        r.0@ == (if optimize {
            " optimize — what was spent and not got back "@
        } else {
            " compare — models on the work you gave them "@
        }),
        r.1@ == (if ready {
            " ↑↓ scroll · o optimize · c compare · esc close "@
        } else {
            " esc close "@
        }),
{
    (
        if optimize {
            " optimize — what was spent and not got back "
        } else {
            " compare — models on the work you gave them "
        },
        if ready {
            " ↑↓ scroll · o optimize · c compare · esc close "
        } else {
            " esc close "
        },
    )
}

/// Where something that is read is drawn: two cells off the edges, and no wider than
/// `most`.
pub open spec fn reading_place(area: Rect, most: u16) -> Rect {
    let w = if area.width < 4 {
        0
    } else {
        area.width - 4
    };
    let h = if area.height < 4 {
        0
    } else {
        area.height - 4
    };
    middle(
        area,
        (if w < most {
            w
        } else {
            most as int
        }) as u16,
        h as u16,
    )
}

/// Where something that is read is drawn.
pub fn reading_box(area: Rect, most: u16) -> (r: Rect)
    requires
        on_screen(area),
    ensures
        r == reading_place(area, most),
{
    let w: u16 = area.width.saturating_sub(4);
    centered(
        area,
        if w < most {
            w
        } else {
            most
        },
        area.height.saturating_sub(4),
    )
}

/// How far a report of `lines` lines is scrolled in a box: it cannot run off the
/// end and leave an empty frame.
pub fn insight_scroll(lines: u16, area: Rect, scroll: u16) -> (r: u16)
    ensures
        ({
            let rows = if area.height < 2 {
                0
            } else {
                area.height - 2
            };
            let most = if lines < rows {
                0
            } else {
                lines - rows
            };
            r == (if scroll < most {
                scroll as int
            } else {
                most
            })
        }),
{
    let most: u16 = lines.saturating_sub(area.height.saturating_sub(2));
    if scroll < most {
        scroll
    } else {
        most
    }
}

/// How far back a conversation of `lines` lines can be read in `rows` rows, and the
/// first line shown when it is read `back` lines from its end. Counted from the
/// end, since it can grow while it is being read.
pub fn chat_scroll(lines: usize, rows: usize, back: u16) -> (r: (u16, usize))
    ensures
        ({
            let most = if lines < rows {
                0
            } else {
                lines - rows
            };
            &&& r.0 == (if most > u16::MAX {
                u16::MAX as int
            } else {
                most
            })
            &&& r.1 == (if lines < rows + back {
                0
            } else {
                lines - rows - back
            })
        }),
{
    let most: usize = lines.saturating_sub(rows);
    let top: usize = most.saturating_sub(back as usize);
    (
        if most > u16::MAX as usize {
            u16::MAX
        } else {
            most as u16
        },
        top,
    )
}

/// The title of a conversation. The host is worth its room: otherwise nothing tells
/// another machine's conversation from one here.
pub open spec fn chat_title_text(s: Session) -> Seq<char> {
    match s.remote {
        Some(remote) => " "@ + s.label() + " — conversation · on "@ + remote.host@ + " "@,
        None => " "@ + s.label() + " — conversation "@,
    }
}

/// The title of a conversation.
pub fn chat_title(s: &Session) -> (r: String)
    ensures
        r@ == chat_title_text(*s),
{
    let mut t = cat(" ", s.display_label());
    match &s.remote {
        Some(remote) => {
            t.append(" — conversation · on ");
            t.append(remote.host.as_str());
            t.append(" ");
        },
        None => {
            t.append(" — conversation ");
        },
    }
    t
}

/// The keys of a conversation.
pub open spec fn chat_keys_text(fetching: bool, earlier: Option<u64>, now: u64) -> Seq<char> {
    if fetching {
        " ↑↓ scroll · "@ + seq![frame_at(now as int)] + " loading earlier… · esc close "@
    } else if earlier is Some && earlier->0 > 0 {
        " ↑↓ scroll · u load "@ + dec(earlier->0 as nat) + " earlier · esc close "@
    } else {
        " ↑↓ scroll · esc close "@
    }
}

/// The keys of a conversation.
pub fn chat_keys(fetching: bool, earlier: Option<u64>, now: u64) -> (r: String)
    ensures
        r@ == chat_keys_text(fetching, earlier, now),
{
    if fetching {
        let mut s = " ↑↓ scroll · ".to_owned();
        let frame = spinner_frame(now);
        s.push(frame);
        assert(s@ =~= " ↑↓ scroll · "@ + seq![frame]);
        s.append(" loading earlier… · esc close ");
        return s;
    }
    match earlier {
        Some(n) => if n > 0 {
            let mut s = cat(" ↑↓ scroll · u load ", decimal(n as u128).as_str());
            s.append(" earlier · esc close ");
            return s;
        },
        None => {},
    }
    " ↑↓ scroll · esc close ".to_owned()
}

/// What stands for a conversation that has not been read, or could not be.
pub open spec fn unread_lines(why: Option<Seq<char>>, remote: bool, now: u64) -> Seq<LineView> {
    match why {
        Some(why) => seq![blank(), blank().with("  "@ + why, Ink::Failed)],
        None => waiting_lines(
            now,
            if remote {
                "Reading it over ssh…"@
            } else {
                "Reading the transcript…"@
            },
        ),
    }
}

/// What stands for a conversation that has not been read, or could not be.
pub fn unread_text(why: Option<&str>, remote: bool, now: u64) -> (r: Text)
    ensures
        r@ == unread_lines(maybe(why), remote, now),
{
    match why {
        Some(why) => {
            let mut t = Text::new();
            t.gap();
            t.push(line_of(cat("  ", why).as_str(), Ink::Failed));
            assert(t@ =~= unread_lines(Some(why@), remote, now));
            t
        },
        None => waiting_text(
            now,
            if remote {
                "Reading it over ssh…"
            } else {
                "Reading the transcript…"
            },
        ),
    }
}

/// Lines of text wrapped to `width`, `before` each of them.
pub open spec fn body(text: Seq<char>, width: int, before: Seq<char>, ink: Ink) -> Seq<LineView> {
    inked(wrapped(text, width), before, ink, wrapped(text, width).len() as int)
}

fn put_body(t: &mut Text, text: &str, width: usize, before: &str, ink: Ink)
    requires
        flows(text@, width as int),
    ensures
        final(t)@ == old(t)@ + body(text@, width as int, before@, ink),
{
    let parts = wrap(text, width);
    assert(words(parts@).len() == parts@.len());
    put_inked(t, &parts, before, ink);
}

/// What a tool call is drawn as: its name, what it was asked, and what it changed.
pub open spec fn call_lines(tool: ToolUse, width: int) -> Seq<LineView> {
    let (mark, ink) = if tool.failed {
        ("✗"@, Ink::Failed)
    } else {
        ("⚙"@, Ink::Dim)
    };
    let head = nothing().push(
        blank().with("    "@ + mark + " "@ + tool.name@, ink).with("  "@ + tool.detail@, Ink::Dim).with(
            if tool.added == 0 && tool.removed == 0 {
                ""@
            } else {
                "  +"@ + dec(tool.added as nat) + " −"@ + dec(tool.removed as nat)
            },
            Ink::Dim,
        ),
    );
    let full = match tool.full {
        Some(text) => head + body(text@, less(width, 6), "      "@, Ink::Dim),
        None => head,
    };
    let all = match tool.result {
        Some(text) => full + body(text@, less(width, 6), "      "@, Ink::Dim),
        None => full,
    };
    all + change_lines(tool.diff@, tool.diff@.len() as int)
}

/// Whether what a call was asked and answered has columns to be drawn in.
pub open spec fn roomy(tool: ToolUse, width: int) -> bool {
    &&& tool.full matches Some(text) ==> flows(text@, less(width, 6))
    &&& tool.result matches Some(text) ==> flows(text@, less(width, 6))
}

/// The first `n` calls.
pub open spec fn calls_lines(tools: Seq<ToolUse>, width: int, n: int) -> Seq<LineView>
    decreases n,
{
    if n <= 0 {
        nothing()
    } else {
        calls_lines(tools, width, n - 1) + call_lines(tools[n - 1], width)
    }
}

/// What a turn is drawn as: who said it and when, what was said, and the calls that
/// were made. Where the window was compacted there is a seam, not a speaker.
pub open spec fn turn_lines(s: Session, turn: Turn, width: int, now: int) -> Seq<LineView> {
    if turn.kind@ == "compaction"@ {
        nothing().push(blank().with("  ── compacted ──"@, Ink::Dim)).push(blank())
    } else {
        let (who, ink) = if turn.role@ == "user"@ {
            ("you"@, Ink::Title)
        } else if turn.role@ == "assistant"@ {
            (s.type_label@, Ink::Title)
        } else {
            ("system"@, Ink::Dim)
        };
        let head = nothing().push(blank().with("  "@ + who, ink).with("  "@ + age_text(turn.ts@, now), Ink::Dim));
        let said = head + body(
            turn.text@,
            width,
            "  "@,
            if turn.kind@ == "reasoning"@ {
                Ink::Dim
            } else {
                Ink::Value
            },
        );
        (said + calls_lines(turn.tools@, width, turn.tools@.len() as int)).push(blank())
    }
}

/// The first `n` turns.
pub open spec fn turns_lines(s: Session, turns: Seq<Turn>, width: int, now: int, n: int) -> Seq<LineView>
    decreases n,
{
    if n <= 0 {
        nothing()
    } else {
        turns_lines(s, turns, width, now, n - 1) + turn_lines(s, turns[n - 1], width, now)
    }
}

/// A conversation.
pub open spec fn conversation_lines(s: Session, conv: Conversation, width: int, now: int) -> Seq<LineView> {
    let top = match conv.note {
        Some(note) => body(note@, width, ""@, Ink::Dim).push(blank()),
        None => nothing(),
    };
    top + turns_lines(s, conv.turns@, width, now, conv.turns@.len() as int)
}

fn put_call(t: &mut Text, tool: &ToolUse, width: usize)
    requires
        roomy(*tool, width as int),
    ensures
        final(t)@ == old(t)@ + call_lines(*tool, width as int),
{
    let ghost was = t@;
    let mut out = Text::new();
    let mut l = Line::new();
    let ink = if tool.failed {
        Ink::Failed
    } else {
        Ink::Dim
    };
    let mut s = cat(
        "    ",
        if tool.failed {
            "✗"
        } else {
            "⚙"
        },
    );
    s.append(" ");
    s.append(tool.name.as_str());
    l.put(s.as_str(), ink);
    l.put(cat("  ", tool.detail.as_str()).as_str(), Ink::Dim);
    if tool.added == 0 && tool.removed == 0 {
        l.put("", Ink::Dim);
    } else {
        let mut s = cat("  +", decimal(tool.added as u128).as_str());
        s.append(" −");
        s.append(decimal(tool.removed as u128).as_str());
        l.put(s.as_str(), Ink::Dim);
    }
    out.push(l);
    match &tool.full {
        Some(text) => {
            put_body(&mut out, text.as_str(), width.saturating_sub(6), "      ", Ink::Dim);
        },
        None => {},
    }
    match &tool.result {
        Some(text) => {
            put_body(&mut out, text.as_str(), width.saturating_sub(6), "      ", Ink::Dim);
        },
        None => {},
    }
    let ghost mid = out@;
    let mut i: usize = 0;
    assert(mid + change_lines(tool.diff@, 0) =~= mid);
    while i < tool.diff.len()
        invariant
            i <= tool.diff@.len(),
            out@ == mid + change_lines(tool.diff@, i as int),
        decreases tool.diff@.len() - i,
    {
        let line = tool.diff[i].as_str();
        let v = chars_of(line);
        let ink = if v.len() > 0 && v[0] == '+' {
            Ink::Value
        } else {
            Ink::Dim
        };
        out.push(line_of(cat("      ", line).as_str(), ink));
        assert(out@ =~= mid + change_lines(tool.diff@, i + 1));
        i += 1;
    }
    assert(out@ == call_lines(*tool, width as int));
    t.append(out);
}

/// Whether what was said in a turn, and every call of it, has columns to be drawn
/// in.
pub open spec fn roomy_turn(turn: Turn, width: int) -> bool {
    turn.kind@ != "compaction"@ ==> {
        &&& flows(turn.text@, width)
        &&& forall|i: int| 0 <= i < turn.tools@.len() ==> roomy(#[trigger] turn.tools@[i], width)
    }
}

fn put_turn(t: &mut Text, s: &Session, turn: &Turn, width: usize, now: i64)
    requires
        roomy_turn(*turn, width as int),
    ensures
        final(t)@ == old(t)@ + turn_lines(*s, *turn, width as int, now as int),
{
    let mut out = Text::new();
    if same(turn.kind.as_str(), "compaction") {
        out.push(line_of("  ── compacted ──", Ink::Dim));
        out.gap();
        t.append(out);
        return;
    }
    let (who, ink) = if same(turn.role.as_str(), "user") {
        ("you", Ink::Title)
    } else if same(turn.role.as_str(), "assistant") {
        (s.type_label.as_str(), Ink::Title)
    } else {
        ("system", Ink::Dim)
    };
    let mut l = line_of(cat("  ", who).as_str(), ink);
    l.put(cat("  ", relative_age(turn.ts.as_str(), now).as_str()).as_str(), Ink::Dim);
    out.push(l);
    let ink = if same(turn.kind.as_str(), "reasoning") {
        Ink::Dim
    } else {
        Ink::Value
    };
    put_body(&mut out, turn.text.as_str(), width, "  ", ink);
    let ghost said = out@;
    let mut i: usize = 0;
    assert(said + calls_lines(turn.tools@, width as int, 0) =~= said);
    while i < turn.tools.len()
        invariant
            i <= turn.tools@.len(),
            turn.kind@ != "compaction"@,
            roomy_turn(*turn, width as int),
            out@ == said + calls_lines(turn.tools@, width as int, i as int),
        decreases turn.tools@.len() - i,
    {
        put_call(&mut out, &turn.tools[i], width);
        assert(out@ =~= said + calls_lines(turn.tools@, width as int, i + 1));
        i += 1;
    }
    out.gap();
    t.append(out);
}

/// A conversation laid out in `width` columns. A tool's work is context for the
/// text rather than the text itself.
pub fn chat_lines(s: &Session, conv: &Conversation, width: usize, now: i64) -> (r: Text)
    requires
        conv.note matches Some(note) ==> flows(note@, width as int),
        forall|i: int| 0 <= i < conv.turns@.len() ==> roomy_turn(#[trigger] conv.turns@[i], width as int),
    ensures
        r@ == conversation_lines(*s, *conv, width as int, now as int),
{
    let mut t = Text::new();
    match &conv.note {
        Some(note) => {
            put_body(&mut t, note.as_str(), width, "", Ink::Dim);
            assert(t@ =~= body(note@, width as int, ""@, Ink::Dim));
            t.gap();
        },
        None => {},
    }
    let ghost top = t@;
    let mut i: usize = 0;
    assert(top + turns_lines(*s, conv.turns@, width as int, now as int, 0) =~= top);
    while i < conv.turns.len()
        invariant
            i <= conv.turns@.len(),
            forall|k: int| 0 <= k < conv.turns@.len() ==> roomy_turn(#[trigger] conv.turns@[k], width as int),
            t@ == top + turns_lines(*s, conv.turns@, width as int, now as int, i as int),
        decreases conv.turns@.len() - i,
    {
        put_turn(&mut t, s, &conv.turns[i], width, now);
        assert(t@ =~= top + turns_lines(*s, conv.turns@, width as int, now as int, i + 1));
        i += 1;
    }
    t
}

proof fn a_turn_has_its_lines(s: Session, turns: Seq<Turn>, width: int, now: int, n: int, k: int)
    requires
        0 <= k < n <= turns.len(),
    ensures
        ({
            let from = turns_lines(s, turns, width, now, k).len() as int;
            let own = turn_lines(s, turns[k], width, now);
            &&& from + own.len() <= turns_lines(s, turns, width, now, n).len()
            &&& turns_lines(s, turns, width, now, n).subrange(from, from + own.len()) == own
        }),
    decreases n,
{
    let from = turns_lines(s, turns, width, now, k).len() as int;
    let own = turn_lines(s, turns[k], width, now);
    let all = turns_lines(s, turns, width, now, n);
    let before = turns_lines(s, turns, width, now, n - 1);
    if k < n - 1 {
        a_turn_has_its_lines(s, turns, width, now, n - 1, k);
        assert(all.subrange(from, from + own.len()) =~= before.subrange(from, from + own.len()));
    } else {
        assert(all.subrange(from, from + own.len()) =~= own);
    }
}

/// Every turn of a conversation is drawn, in order, each by who said it and how long
/// ago.
pub proof fn every_turn_is_drawn(s: Session, turns: Seq<Turn>, width: int, now: int, k: int)
    requires
        0 <= k < turns.len(),
        turns[k].kind@ != "compaction"@,
    ensures
        ({
            let from = turns_lines(s, turns, width, now, k).len() as int;
            let line = turns_lines(s, turns, width, now, turns.len() as int)[from];
            &&& turns[k].role@ == "user"@ ==> line.spans[0].text == "  "@ + "you"@
            &&& turns[k].role@ == "assistant"@ ==> line.spans[0].text == "  "@ + s.type_label@
            &&& turns[k].role@ != "user"@ && turns[k].role@ != "assistant"@ ==> line.spans[0].text == "  "@ + "system"@
            &&& line.spans[1].text == "  "@ + age_text(turns[k].ts@, now)
        }),
{
    reveal_strlit("user");
    reveal_strlit("assistant");
    assert("user"@.len() == 4 && "assistant"@.len() == 9);
    a_turn_has_its_lines(s, turns, width, now, turns.len() as int, k);
    let from = turns_lines(s, turns, width, now, k).len() as int;
    let own = turn_lines(s, turns[k], width, now);
    let all = turns_lines(s, turns, width, now, turns.len() as int);
    assert(own.len() > 0);
    assert(all.subrange(from, from + own.len())[0] == all[from]);
}

/// A call is drawn by its own name and what it was asked, marked where it failed, with
/// what it changed.
pub proof fn a_call_is_drawn_as_itself(tool: ToolUse, width: int)
    ensures
        ({
            let spans = call_lines(tool, width)[0].spans;
            &&& tool.failed ==> spans[0].text == "    "@ + "✗"@ + " "@ + tool.name@ && spans[0].ink == Ink::Failed
            &&& !tool.failed ==> spans[0].text == "    "@ + "⚙"@ + " "@ + tool.name@ && spans[0].ink == Ink::Dim
            &&& spans[1].text == "  "@ + tool.detail@
            &&& tool.added > 0 || tool.removed > 0 ==> spans[2].text == "  +"@ + dec(tool.added as nat) + " −"@ + dec(
                tool.removed as nat,
            )
        }),
{
}

/// A conversation is titled by its session, and one of another machine by its host too.
pub proof fn a_conversation_is_titled_by_its_session(s: Session)
    ensures
        s.remote is None ==> chat_title_text(s) == " "@ + s.label() + " — conversation "@,
        s.remote matches Some(r) ==> chat_title_text(s) == " "@ + s.label() + " — conversation · on "@ + r.host@ + " "@,
{
}

} // verus!
