//! The Info panel: what one session is, where, and how far it has come.

use vstd::prelude::*;

use crate::data::{Metrics, SessionData};
use crate::figures::{
    compact_tokens, grouped, long_duration, long_span_text, meter, meter_text, millis_of, ms_of, percent, percent_of, short_path,
    since, tildify, tokens_text, with_commas,
};
use crate::model::{ContextUsage, Overlap, Plan, Provider, Session, Surface};
use crate::outside::{moment, moment_of};
use crate::panels::{field, field_line, name_of, named};
use crate::remote::{path_tail, tail_of, Clash};
use crate::styled::{blank, line_of, note, nothing, Ink, Line, LineView, Text};
use crate::text::{between, cat, count, dec, decimal, join, joined, pad_left, repeat, right_in, times};

verus! {

/// How many of a conflict's files are listed. Beyond this the list stops being
/// read and starts being scrolled past.
pub const MAX_FILES: usize = 6;

/// The account signed in with a provider.
pub struct Account {
    pub email: Option<String>,
    pub organization: Option<String>,
}

/// The ink of a session's kind.
pub open spec fn kind_ink(s: Session) -> Ink {
    match s.surface {
        Surface::DesktopCowork => Ink::DesktopCowork,
        Surface::DesktopCode => Ink::DesktopCode,
        Surface::Editor => Ink::Agent(Provider::Cursor),
        Surface::Cli => Ink::Agent(s.provider),
    }
}

/// The ink of a session's kind.
pub fn kind_ink_of(s: &Session) -> (r: Ink)
    ensures
        r == kind_ink(*s),
{
    match s.surface {
        Surface::DesktopCowork => Ink::DesktopCowork,
        Surface::DesktopCode => Ink::DesktopCode,
        Surface::Editor => Ink::Agent(Provider::Cursor),
        Surface::Cli => Ink::Agent(s.provider),
    }
}

/// How long a session has run, in milliseconds: up to now while its agent is
/// live, pauses included, and up to its last activity once it has stopped.
pub open spec fn wall_ms(s: Session, now: int) -> Option<nat> {
    match (ms_of(s.started_at@), if s.running() {
        Some(now)
    } else {
        ms_of(s.last_active@)
    }) {
        (Some(from), Some(to)) => Some(since(from, to)),
        _ => None,
    }
}

/// How long a session has run, in milliseconds.
pub fn wall_duration_ms(session: &Session, now: i64) -> (r: Option<u128>)
    ensures
        match (r, wall_ms(*session, now as int)) {
            (Some(a), Some(b)) => a == b,
            (None, None) => true,
            _ => false,
        },
{
    let from: i128 = match millis_of(session.started_at.as_str()) {
        Some(f) => f,
        None => {
            return None;
        },
    };
    let to: i128 = if session.is_running() {
        now as i128
    } else {
        match millis_of(session.last_active.as_str()) {
            Some(t) => t,
            None => {
                return None;
            },
        }
    };
    if to > from {
        Some((to - from) as u128)
    } else {
        Some(0)
    }
}

/// A live session's time goes on with the clock; a stopped one's stands still.
pub proof fn wall_time_follows_the_clock(s: Session, now: int, later: int)
    requires
        wall_ms(s, now) is Some,
        now <= later,
    ensures
        wall_ms(s, later) is Some,
        !s.running() ==> wall_ms(s, later) == wall_ms(s, now),
        wall_ms(s, now)->0 <= wall_ms(s, later)->0,
        s.running() && wall_ms(s, now)->0 > 0 ==> wall_ms(s, later)->0 - wall_ms(s, now)->0 == later - now,
{
}

/// One of a conflict's files.
pub open spec fn file_line(text: Seq<char>) -> LineView {
    blank().with(times(' ', 11), Ink::Plain).with(text, Ink::Dim)
}

fn file_line_of(text: &str) -> (r: Line)
    ensures
        r@ == file_line(text@),
{
    let mut l = Line::new();
    l.put(repeat(' ', 11).as_str(), Ink::Plain);
    l.put(text, Ink::Dim);
    l
}

/// The first `n` of a conflict's files.
pub open spec fn file_lines(files: Seq<String>, n: int) -> Seq<LineView>
    decreases n,
{
    if n <= 0 {
        nothing()
    } else {
        file_lines(files, n - 1).push(file_line(tail_of(files[n - 1]@, 3)))
    }
}

/// Who else is on a session's ground, and over which files.
pub open spec fn clash_text(clash: Option<Clash>) -> Seq<LineView> {
    match clash {
        None => nothing(),
        Some(c) => {
            let peers = joined(c.peers@, ", "@);
            let first = match c.level {
                Overlap::File => named("Conflict"@).with_bold("⚠ also written by "@ + peers, Ink::High),
                Overlap::Directory => named("Sharing"@).with("· this repository with "@ + peers, Ink::Mid),
            };
            let shown = if c.files@.len() > MAX_FILES {
                MAX_FILES as int
            } else {
                c.files@.len() as int
            };
            let listed = nothing().push(first) + file_lines(c.files@, shown);
            if c.files@.len() > MAX_FILES {
                listed.push(file_line("+"@ + dec((c.files@.len() - MAX_FILES) as nat) + " more"@))
            } else {
                listed
            }
        },
    }
}

/// The Info panel's account of who else is on this session's ground.
///
/// Files are listed rather than counted: a number would send the reader hunting
/// for them.
pub fn clash_lines(clash: &Option<Clash>) -> (r: Text)
    ensures
        r@ == clash_text(*clash),
{
    let mut t = Text::new();
    let c = match clash {
        None => {
            return t;
        },
        Some(c) => c,
    };
    let peers = join(&c.peers, ", ");
    let mut l = match c.level {
        Overlap::File => name_of("Conflict"),
        Overlap::Directory => name_of("Sharing"),
    };
    match c.level {
        Overlap::File => {
            l.put_bold(cat("⚠ also written by ", peers.as_str()).as_str(), Ink::High);
        },
        Overlap::Directory => {
            l.put(cat("· this repository with ", peers.as_str()).as_str(), Ink::Mid);
        },
    }
    t.push(l);
    let ghost first = t@;
    let n: usize = c.files.len();
    let shown: usize = if n > MAX_FILES {
        MAX_FILES
    } else {
        n
    };
    let mut i: usize = 0;
    assert(first + file_lines(c.files@, 0) =~= first);
    while i < shown
        invariant
            i <= shown <= c.files@.len(),
            t@ == first + file_lines(c.files@, i as int),
        decreases shown - i,
    {
        t.push(file_line_of(path_tail(c.files[i].as_str(), 3).as_str()));
        assert(t@ =~= first + file_lines(c.files@, i + 1));
        i += 1;
    }
    if n > MAX_FILES {
        let mut more = cat("+", decimal((n - MAX_FILES) as u128).as_str());
        more.append(" more");
        t.push(file_line_of(more.as_str()));
    }
    t
}

/// How a session is taken up again by hand.
pub open spec fn command_text(s: Session) -> Seq<char> {
    match s.provider {
        Provider::Claude => s.agent@ + " --resume "@ + s.session_id@,
        Provider::Codex => "codex resume "@ + s.session_id@,
        Provider::Cursor => "Open from Cursor history"@,
        Provider::Gemini => "gemini, then /chat resume"@,
        Provider::OpenCode => "opencode --session "@ + s.session_id@,
        Provider::Pi => "pi --session "@ + s.session_id@,
        Provider::Windsurf => "Open from Windsurf history"@,
    }
}

fn command_of(s: &Session) -> (r: String)
    ensures
        r@ == command_text(*s),
{
    let id = s.session_id.as_str();
    match s.provider {
        Provider::Claude => between(s.agent.as_str(), " --resume ", id),
        Provider::Codex => cat("codex resume ", id),
        Provider::Cursor => "Open from Cursor history".to_owned(),
        Provider::Gemini => "gemini, then /chat resume".to_owned(),
        Provider::OpenCode => cat("opencode --session ", id),
        Provider::Pi => cat("pi --session ", id),
        Provider::Windsurf => "Open from Windsurf history".to_owned(),
    }
}

/// Which session it is: kind, model, id, machine, names, directory, command.
pub open spec fn identity_text(s: Session, last_model: Seq<char>, plan: Plan, home: Seq<char>) -> Seq<LineView> {
    let model = if last_model.len() == 0 {
        s.model@
    } else {
        last_model
    };
    let first = named("Type"@).with_bold(s.type_label@, kind_ink(s)).with("    "@, Ink::Plain).with(
        "Model"@,
        Ink::Label,
    ).with("   "@, Ink::Plain).with_bold(model, Ink::Model);
    let t = nothing().push(first).push(field_line("ID"@, s.session_id@));
    let t = match s.remote {
        Some(r) => t.push(
            named("Host"@).with_bold(r.host@, Ink::Accent).with("  "@, Ink::Plain).with(
                "read over ssh; cctop acts only on this machine"@,
                Ink::Dim,
            ),
        ),
        None => t,
    };
    let t = if s.harness@.len() > 0 {
        t.push(field_line("Harness"@, s.harness@))
    } else {
        t
    };
    let t = match s.title {
        Some(title) => t.push(field_line("Title"@, title@)),
        None => t,
    };
    t.push(
        field_line(
            "Dir"@,
            short_path(
                if s.label_source@.len() == 0 {
                    "unknown"@
                } else {
                    s.label_source@
                },
                home,
            ),
        ),
    ).push(field_line("Cmd"@, command_text(s))).push(field_line("Plan"@, plan.word()))
}

fn identity(s: &Session, last_model: &str, plan: Plan, home: &str) -> (r: Text)
    ensures
        r@ == identity_text(*s, last_model@, plan, home@),
{
    let mut t = Text::new();
    let mut l = name_of("Type");
    l.put_bold(s.type_label.as_str(), kind_ink_of(s));
    l.put("    ", Ink::Plain);
    l.put("Model", Ink::Label);
    l.put("   ", Ink::Plain);
    if count(last_model) == 0 {
        l.put_bold(s.model.as_str(), Ink::Model);
    } else {
        l.put_bold(last_model, Ink::Model);
    }
    t.push(l);
    t.push(field("ID", s.session_id.as_str()));
    match &s.remote {
        Some(r) => {
            let mut h = name_of("Host");
            h.put_bold(r.host.as_str(), Ink::Accent);
            h.put("  ", Ink::Plain);
            h.put("read over ssh; cctop acts only on this machine", Ink::Dim);
            t.push(h);
        },
        None => {},
    }
    if count(s.harness.as_str()) > 0 {
        t.push(field("Harness", s.harness.as_str()));
    }
    match &s.title {
        Some(title) => {
            t.push(field("Title", title.as_str()));
        },
        None => {},
    }
    let dir = if count(s.label_source.as_str()) == 0 {
        tildify("unknown", home)
    } else {
        tildify(s.label_source.as_str(), home)
    };
    t.push(field("Dir", dir.as_str()));
    t.push(field("Cmd", command_of(s).as_str()));
    t.push(field("Plan", plan.as_str()));
    t
}

/// Whether the account that is signed in here is this session's: it is not where
/// the session is somebody else's, and only two providers have one.
pub open spec fn has_account(s: Session) -> bool {
    s.owner is None && (s.provider == Provider::Claude || s.provider == Provider::Codex)
}

/// Effort, whose session it is, and since when.
pub open spec fn circumstances_text(
    s: Session,
    d: SessionData,
    account: Option<Account>,
    started: Seq<char>,
    now: int,
) -> Seq<LineView> {
    let t = match d.reasoning_effort {
        Some(e) => nothing().push(field_line("Effort"@, e@)),
        None => nothing(),
    };
    let t = if d.tokens.reasoning_output > 0 {
        t.push(field_line("Reasoning"@, grouped(d.tokens.reasoning_output as nat) + " tokens"@))
    } else {
        t
    };
    let t = match s.owner {
        Some(o) => t.push(field_line("User"@, o@)),
        None => t,
    };
    let t = if has_account(s) && account is Some {
        let t = match account->0.email {
            Some(e) => t.push(field_line("Account"@, e@)),
            None => t,
        };
        match account->0.organization {
            Some(o) => t.push(field_line("Org"@, o@)),
            None => t,
        }
    } else {
        t
    };
    let t = if moment(s.started_at@) is Some {
        t.push(field_line("Started"@, started))
    } else {
        t
    };
    let t = if d.metrics.api_duration_ms > 0 {
        t.push(field_line("API"@, long_span_text(d.metrics.api_duration_ms as nat)))
    } else {
        t
    };
    match wall_ms(s, now) {
        Some(ms) => t.push(field_line("Wall"@, long_span_text(ms))),
        None => t,
    }
}

fn circumstances(
    s: &Session,
    d: &SessionData,
    account: &Option<Account>,
    started: &str,
    now: i64,
) -> (r: Text)
    ensures
        r@ == circumstances_text(*s, *d, *account, started@, now as int),
{
    let mut t = Text::new();
    match &d.reasoning_effort {
        Some(e) => {
            t.push(field("Effort", e.as_str()));
        },
        None => {},
    }
    if d.tokens.reasoning_output > 0 {
        let n = cat(with_commas(d.tokens.reasoning_output).as_str(), " tokens");
        t.push(field("Reasoning", n.as_str()));
    }
    match &s.owner {
        Some(o) => {
            t.push(field("User", o.as_str()));
        },
        None => {},
    }
    if s.owner.is_none() && (s.provider == Provider::Claude || s.provider == Provider::Codex) {
        match account {
            Some(a) => {
                match &a.email {
                    Some(e) => {
                        t.push(field("Account", e.as_str()));
                    },
                    None => {},
                }
                match &a.organization {
                    Some(o) => {
                        t.push(field("Org", o.as_str()));
                    },
                    None => {},
                }
            },
            None => {},
        }
    }
    if moment_of(s.started_at.as_str()).is_some() {
        t.push(field("Started", started));
    }
    if d.metrics.api_duration_ms > 0 {
        t.push(field("API", long_duration(d.metrics.api_duration_ms as u128).as_str()));
    }
    match wall_duration_ms(s, now) {
        Some(ms) => {
            t.push(field("Wall", long_duration(ms).as_str()));
        },
        None => {},
    }
    t
}

/// The ink of a rate of failure.
pub open spec fn rate_ink(errors: nat, calls: nat) -> Ink {
    if calls > 0 && errors * 4 >= calls {
        Ink::High
    } else if calls > 0 && errors * 10 >= calls {
        Ink::Mid
    } else {
        Ink::Dim
    }
}

/// What failed, and what was written.
pub open spec fn work_text(s: Session, m: Metrics) -> Seq<LineView> {
    let t = if m.tool_errors > 0 {
        nothing().push(
            named("Failed"@).with(
                dec(m.tool_errors as nat) + " of "@ + dec(m.tool_count as nat) + " calls"@,
                rate_ink(s.tool_errors as nat, s.tool_count as nat),
            ).with("  "@, Ink::Plain).with(
                dec(percent(s.tool_errors as nat, s.tool_count as nat)) + "%"@,
                Ink::Dim,
            ),
        )
    } else {
        nothing()
    };
    if m.lines_added > 0 || m.lines_removed > 0 {
        t.push(
            named("Lines"@).with("+"@ + grouped(m.lines_added as nat), Ink::Low).with("  "@, Ink::Plain).with(
                "-"@ + grouped(m.lines_removed as nat),
                Ink::High,
            ),
        )
    } else {
        t
    }
}

fn work(s: &Session, m: &Metrics) -> (r: Text)
    ensures
        r@ == work_text(*s, *m),
{
    let mut t = Text::new();
    if m.tool_errors > 0 {
        let errors: u128 = s.tool_errors as u128;
        let calls: u128 = s.tool_count as u128;
        let ink = if calls > 0 && errors * 4 >= calls {
            Ink::High
        } else if calls > 0 && errors * 10 >= calls {
            Ink::Mid
        } else {
            Ink::Dim
        };
        let mut l = name_of("Failed");
        let mut n = cat(decimal(m.tool_errors as u128).as_str(), " of ");
        n.append(decimal(m.tool_count as u128).as_str());
        n.append(" calls");
        l.put(n.as_str(), ink);
        l.put("  ", Ink::Plain);
        l.put(cat(decimal(percent_of(errors, calls)).as_str(), "%").as_str(), Ink::Dim);
        t.push(l);
    }
    if m.lines_added > 0 || m.lines_removed > 0 {
        let mut l = name_of("Lines");
        l.put(cat("+", with_commas(m.lines_added).as_str()).as_str(), Ink::Low);
        l.put("  ", Ink::Plain);
        l.put(cat("-", with_commas(m.lines_removed).as_str()).as_str(), Ink::High);
        t.push(l);
    }
    t
}

/// How far the window is from being compacted.
pub open spec fn window_text(s: Session) -> Seq<LineView> {
    match s.context {
        None => nothing(),
        Some(c) => {
            let t = nothing().push(blank());
            let head = blank().with("Compaction"@, Ink::Label).with(" "@, Ink::Plain);
            if s.compacting() {
                t.push(head.with_bold("compacting…"@, Ink::High))
            } else if c.compacted {
                t.push(head.with("compacted; no request since"@, Ink::Dim))
            } else {
                let pct = percent(c.used as nat, c.compact_at as nat);
                let ink = Ink::Share(pct as u128);
                t.push(
                    head.with_bold(right_in(dec(pct), 3) + "%"@, ink).with("  "@, Ink::Plain).with(
                        "used"@,
                        Ink::Label,
                    ).with(" "@, Ink::Plain).with(tokens_text(c.used as nat), Ink::Value).with(" "@, Ink::Plain).with(
                        "of"@,
                        Ink::Label,
                    ).with(" "@, Ink::Plain).with(tokens_text(c.compact_at as nat), Ink::Value).with(
                        " "@,
                        Ink::Plain,
                    ).with("tokens"@, Ink::Label),
                ).push(
                    blank().with("           "@, Ink::Plain).with(
                        meter_text(c.used as nat, c.compact_at as nat, 40),
                        ink,
                    ),
                )
            }
        },
    }
}

fn window(s: &Session) -> (r: Text)
    ensures
        r@ == window_text(*s),
{
    let mut t = Text::new();
    let c: ContextUsage = match s.context {
        None => {
            return t;
        },
        Some(c) => c,
    };
    t.gap();
    let mut l = Line::new();
    l.put("Compaction", Ink::Label);
    l.put(" ", Ink::Plain);
    if s.is_compacting() {
        l.put_bold("compacting…", Ink::High);
        t.push(l);
    } else if c.compacted {
        l.put("compacted; no request since", Ink::Dim);
        t.push(l);
    } else {
        let pct: u128 = percent_of(c.used as u128, c.compact_at as u128);
        let ink = Ink::Share(pct);
        l.put_bold(cat(pad_left(decimal(pct).as_str(), 3).as_str(), "%").as_str(), ink);
        l.put("  ", Ink::Plain);
        l.put("used", Ink::Label);
        l.put(" ", Ink::Plain);
        l.put(compact_tokens(c.used as u128).as_str(), Ink::Value);
        l.put(" ", Ink::Plain);
        l.put("of", Ink::Label);
        l.put(" ", Ink::Plain);
        l.put(compact_tokens(c.compact_at as u128).as_str(), Ink::Value);
        l.put(" ", Ink::Plain);
        l.put("tokens", Ink::Label);
        t.push(l);
        let mut b = Line::new();
        b.put("           ", Ink::Plain);
        b.put(meter(c.used as u128, c.compact_at as u128, 40).as_str(), ink);
        t.push(b);
    }
    t
}

/// The Info panel of a session whose transcript was read as `d`.
pub open spec fn info_of(
    s: Session,
    d: SessionData,
    plan: Plan,
    clash: Option<Clash>,
    home: Seq<char>,
    account: Option<Account>,
    started: Seq<char>,
    now: int,
) -> Seq<LineView> {
    match d.error {
        Some(err) => nothing().push(blank().with("Could not read this session:"@, Ink::High)).push(
            blank().with(err@, Ink::Dim),
        ),
        None => identity_text(s, d.last_model@, plan, home) + clash_text(clash) + circumstances_text(
            s,
            d,
            account,
            started,
            now,
        ) + work_text(s, d.metrics) + window_text(s),
    }
}

/// A transcript with nothing in it.
pub open spec fn unread(d: SessionData) -> bool {
    &&& d.error is None
    &&& d.last_model@.len() == 0
    &&& d.reasoning_effort is None
    &&& d.tokens.reasoning_output == 0
    &&& d.metrics.api_duration_ms == 0
    &&& d.metrics.tool_errors == 0
    &&& d.metrics.lines_added == 0
    &&& d.metrics.lines_removed == 0
}

/// The Info panel.
///
/// A row of another machine has no transcript behind it here and never will, so
/// it is drawn from an empty one rather than being stuck on "Loading…".
/// `started` is when the session was started, in local time, which is said where
/// that can be read, and `now` is in milliseconds since 1970.
pub fn info(
    session: &Session,
    data: Option<&SessionData>,
    plan: Plan,
    clash: &Option<Clash>,
    home: &str,
    account: &Option<Account>,
    started: &str,
    now: i64,
) -> (r: Text)
    ensures
        match data {
            Some(d) => r@ == info_of(*session, *d, plan, *clash, home@, *account, started@, now as int),
            None => if session.remote is Some {
                exists|d: SessionData|
                    #![trigger unread(d)]
                    unread(d) && r@ == info_of(
                        *session,
                        d,
                        plan,
                        *clash,
                        home@,
                        *account,
                        started@,
                        now as int,
                    )
            } else {
                r@ == nothing().push(blank().with("Loading…"@, Ink::Dim))
            },
        },
{
    match data {
        Some(d) => info_from(session, d, plan, clash, home, account, started, now),
        None => {
            if session.remote.is_none() {
                return note("Loading…", Ink::Dim);
            }
            let empty = SessionData::new();
            assert(unread(empty));
            info_from(session, &empty, plan, clash, home, account, started, now)
        },
    }
}

fn info_from(
    session: &Session,
    data: &SessionData,
    plan: Plan,
    clash: &Option<Clash>,
    home: &str,
    account: &Option<Account>,
    started: &str,
    now: i64,
) -> (r: Text)
    ensures
        r@ == info_of(*session, *data, plan, *clash, home@, *account, started@, now as int),
{
    match &data.error {
        Some(err) => {
            let mut t = note("Could not read this session:", Ink::High);
            t.push(line_of(err.as_str(), Ink::Dim));
            return t;
        },
        None => {},
    }
    let mut t = identity(session, data.last_model.as_str(), plan, home);
    t.append(clash_lines(clash));
    t.append(circumstances(session, data, account, started, now));
    t.append(work(session, &data.metrics));
    t.append(window(session));
    t
}

/// How long a session ran is from its start to its last activity, and to now while it
/// runs; a session that ended before it began ran no time at all.
pub proof fn wall_time_is_from_start_to_end(s: Session, now: int, from: int, to: int)
    requires
        ms_of(s.started_at@) == Some(from),
        s.running() ==> to == now,
        !s.running() ==> ms_of(s.last_active@) == Some(to),
    ensures
        from <= to ==> wall_ms(s, now) == Some((to - from) as nat),
        from > to ==> wall_ms(s, now) == Some(0nat),
{
}

/// A session is called by its own id, its own directory and the plan that is asked
/// about, and a session of another machine by its host.
pub proof fn a_session_is_identified(s: Session, last_model: Seq<char>, plan: Plan, home: Seq<char>)
    ensures
        ({
            let t = identity_text(s, last_model, plan, home);
            &&& t[0].spans[2].text == s.type_label@
            &&& t[0].spans[2].ink == kind_ink(s)
            &&& last_model.len() > 0 ==> t[0].spans[6].text == last_model
            &&& last_model.len() == 0 ==> t[0].spans[6].text == s.model@
            &&& t.contains(field_line("ID"@, s.session_id@))
            &&& s.harness@.len() > 0 ==> t.contains(field_line("Harness"@, s.harness@))
            &&& s.title matches Some(title) ==> t.contains(field_line("Title"@, title@))
            &&& s.label_source@.len() > 0 ==> t.contains(field_line("Dir"@, short_path(s.label_source@, home)))
            &&& s.label_source@.len() == 0 ==> t.contains(field_line("Dir"@, short_path("unknown"@, home)))
            &&& t.contains(field_line("Plan"@, plan.word()))
            &&& t[t.len() - 2] == field_line("Cmd"@, command_text(s))
            &&& s.remote matches Some(r) ==> t[2].spans[2].text == r.host@
            &&& t.len() == 5 + (if s.remote is Some {
                1int
            } else {
                0
            }) + (if s.harness@.len() > 0 {
                1int
            } else {
                0
            }) + (if s.title is Some {
                1int
            } else {
                0
            })
        }),
{
    broadcast use vstd::seq_lib::group_seq_properties;

    let t = identity_text(s, last_model, plan, home);
    assert(t[1] == field_line("ID"@, s.session_id@));
    assert(t[t.len() - 1] == field_line("Plan"@, plan.word()));
    assert(t[t.len() - 2] == field_line("Cmd"@, command_text(s)));
    assert(t[t.len() - 3].spans[2].text == short_path(
        if s.label_source@.len() == 0 {
            "unknown"@
        } else {
            s.label_source@
        },
        home,
    ));
    if s.title is Some {
        assert(t[t.len() - 4] == field_line("Title"@, s.title->0@));
    }
    if s.harness@.len() > 0 {
        assert(t[if s.remote is Some {
            3
        } else {
            2
        }] == field_line("Harness"@, s.harness@));
    }
}

/// The command a session is taken up with ends with that session's own id, where the
/// agent can be told one.
pub proof fn a_command_takes_up_its_own_session(s: Session)
    ensures
        s.provider == Provider::Claude || s.provider == Provider::Codex || s.provider == Provider::OpenCode || s.provider
            == Provider::Pi ==> crate::text::ends(command_text(s), s.session_id@),
        s.provider == Provider::Claude ==> crate::text::begins(command_text(s), s.agent@),
{
    let c = command_text(s);
    if s.provider == Provider::Claude || s.provider == Provider::Codex || s.provider == Provider::OpenCode || s.provider
        == Provider::Pi {
        assert(c.skip(c.len() - s.session_id@.len()) =~= s.session_id@);
    }
    if s.provider == Provider::Claude {
        assert(c.take(s.agent@.len() as int) =~= s.agent@);
    }
}

/// The account that is signed in here is said of this user's own sessions with the two
/// providers that have one, and of no other.
pub proof fn an_account_is_said_of_its_own_sessions(
    s: Session,
    d: SessionData,
    account: Option<Account>,
    started: Seq<char>,
    now: int,
)
    ensures
        s.owner is Some ==> circumstances_text(s, d, account, started, now) == circumstances_text(
            s,
            d,
            None,
            started,
            now,
        ) && circumstances_text(s, d, account, started, now).contains(field_line("User"@, s.owner->0@)),
        s.provider != Provider::Claude && s.provider != Provider::Codex ==> circumstances_text(s, d, account, started, now)
            == circumstances_text(s, d, None, started, now),
        s.owner is None && (s.provider == Provider::Claude || s.provider == Provider::Codex) && account is Some ==> {
            &&& account->0.email matches Some(e) ==> circumstances_text(s, d, account, started, now).contains(
                field_line("Account"@, e@),
            )
            &&& account->0.organization matches Some(o) ==> circumstances_text(s, d, account, started, now).contains(
                field_line("Org"@, o@),
            )
        },
{
    broadcast use vstd::seq_lib::group_seq_properties;

}

/// What a transcript says of a session is said in its own field: its effort, what it
/// thought, when it began, how long it was worked on and how long it took.
pub proof fn a_figure_stands_in_its_field(
    s: Session,
    d: SessionData,
    account: Option<Account>,
    started: Seq<char>,
    now: int,
)
    ensures
        ({
            let t = circumstances_text(s, d, account, started, now);
            &&& d.reasoning_effort matches Some(e) ==> t.contains(field_line("Effort"@, e@))
            &&& d.tokens.reasoning_output > 0 ==> t.contains(
                field_line("Reasoning"@, grouped(d.tokens.reasoning_output as nat) + " tokens"@),
            )
            &&& moment(s.started_at@) is Some ==> t.contains(field_line("Started"@, started))
            &&& d.metrics.api_duration_ms > 0 ==> t.contains(
                field_line("API"@, long_span_text(d.metrics.api_duration_ms as nat)),
            )
            &&& wall_ms(s, now) matches Some(ms) ==> t.contains(field_line("Wall"@, long_span_text(ms)))
        }),
{
    broadcast use vstd::seq_lib::group_seq_properties;

}

/// Where a quarter of the calls failed that is high, where a tenth did middling, and
/// where none was made there is nothing to mind; more failures are never minded less.
pub proof fn more_failures_are_minded_more(errors: nat, more: nat, calls: nat)
    requires
        errors <= more,
    ensures
        calls > 0 ==> (errors * 4 >= calls <==> rate_ink(errors, calls) == Ink::High),
        calls > 0 ==> (errors * 10 < calls <==> rate_ink(errors, calls) == Ink::Dim),
        calls == 0 ==> rate_ink(errors, calls) == Ink::Dim,
        rate_ink(errors, calls) == Ink::High ==> rate_ink(more, calls) == Ink::High,
        rate_ink(more, calls) == Ink::Dim ==> rate_ink(errors, calls) == Ink::Dim,
{
}

/// What failed is told out of what was called, and what was added apart from what was
/// taken out.
pub proof fn work_is_told_as_it_was(s: Session, m: Metrics)
    ensures
        ({
            let t = work_text(s, m);
            let failed = m.tool_errors > 0;
            let written = m.lines_added > 0 || m.lines_removed > 0;
            &&& t.len() == (if failed {
                1int
            } else {
                0
            }) + (if written {
                1int
            } else {
                0
            })
            &&& failed ==> t[0].spans[2].text == dec(m.tool_errors as nat) + " of "@ + dec(m.tool_count as nat)
                + " calls"@
            &&& written ==> t.last().spans[2].text == "+"@ + grouped(m.lines_added as nat)
            &&& written ==> t.last().spans[2].ink == Ink::Low
            &&& written ==> t.last().spans[4].text == "-"@ + grouped(m.lines_removed as nat)
            &&& written ==> t.last().spans[4].ink == Ink::High
        }),
{
}

/// The window's share of its threshold is told to the nearest percent, beside what it
/// holds and where it is compacted; while it is being compacted, and until it is used
/// again, none of them is.
pub proof fn the_window_is_told_against_its_threshold(s: Session)
    requires
        s.context is Some,
        s.context->0.used < 0x400_0000_0000,
    ensures
        ({
            let c = s.context->0;
            let t = window_text(s);
            &&& s.compacting() ==> t.len() == 2 && t[1].spans[2].text == "compacting…"@
            &&& !s.compacting() && c.compacted ==> t.len() == 2 && t[1].spans[2].text == "compacted; no request since"@
            &&& !s.compacting() && !c.compacted ==> {
                let pct = crate::text::reading(t[1].spans[2].text);
                &&& t.len() == 3
                &&& t[1].spans[6].text == tokens_text(c.used as nat)
                &&& t[1].spans[10].text == tokens_text(c.compact_at as nat)
                &&& t[1].spans[2].ink == Ink::Share(pct as u128)
                &&& c.compact_at == 0 ==> pct == 0
                &&& c.compact_at > 0 ==> 2 * (pct * c.compact_at - 100 * c.used) <= c.compact_at && 2 * (100 * c.used - pct
                    * c.compact_at) <= c.compact_at
            }
        }),
{
    let c = s.context->0;
    let pct = percent(c.used as nat, c.compact_at as nat);
    reveal_strlit("%");
    let shown = right_in(dec(pct), 3);
    let pad = (shown.len() - dec(pct).len()) as int;
    assert(shown =~= times(' ', pad) + dec(pct));
    crate::text::marks_before_are_not_read(times(' ', pad), dec(pct));
    crate::text::only_digits_are_read(shown, "%"@);
    crate::text::a_number_reads_back(pct);
    if c.compact_at > 0 {
        crate::figures::a_percentage_is_near(c.used as nat, c.compact_at as nat);
    }
}

proof fn files_are_listed(files: Seq<String>, n: int, i: int)
    requires
        0 <= i < n <= files.len(),
    ensures
        file_lines(files, n).len() == n,
        file_lines(files, n)[i].spans[1].text == tail_of(files[i]@, 3),
    decreases n,
{
    assert(file_lines(files, 0).len() == 0);
    if n > 1 {
        files_are_listed(files, n - 1, if i < n - 1 {
            i
        } else {
            0
        });
    }
}

/// A conflict names those it is with, and every file of it is listed in order or
/// counted: those that are listed and those that are counted are all there are.
pub proof fn every_file_is_listed_or_counted(c: Clash, i: int)
    requires
        0 <= i < c.files@.len(),
    ensures
        ({
            let t = clash_text(Some(c));
            let left = c.files@.len() - 6;
            &&& i < 6 ==> t[1 + i].spans[1].text == tail_of(c.files@[i]@, 3)
            &&& left <= 0 ==> t.len() == 1 + c.files@.len()
            &&& left > 0 ==> t.len() == 8 && t[7].spans[1].text == "+"@ + dec(left as nat) + " more"@
            &&& c.level == Overlap::File ==> t[0].spans[2].text == "⚠ also written by "@ + joined(c.peers@, ", "@)
                && t[0].spans[2].ink == Ink::High
            &&& c.level == Overlap::Directory ==> t[0].spans[2].text == "· this repository with "@ + joined(
                c.peers@,
                ", "@,
            ) && t[0].spans[2].ink == Ink::Mid
        }),
{
    let shown = if c.files@.len() > 6 {
        6
    } else {
        c.files@.len() as int
    };
    files_are_listed(c.files@, shown, if i < shown {
        i
    } else {
        0
    });
}

/// A session is in the colour of where it runs: of the two desktop applications, of the
/// editor, or of its own agent where it runs in a terminal.
pub proof fn a_session_is_coloured_by_where_it_runs(s: Session)
    ensures
        s.surface == Surface::DesktopCowork <==> kind_ink(s) == Ink::DesktopCowork,
        s.surface == Surface::DesktopCode <==> kind_ink(s) == Ink::DesktopCode,
        s.surface == Surface::Editor ==> kind_ink(s) == Ink::Agent(Provider::Cursor),
        s.surface == Surface::Cli ==> kind_ink(s) == Ink::Agent(s.provider),
{
}

} // verus!
