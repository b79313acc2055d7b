//! The table as a page: whether it is served, on which links, and as a code.

use vstd::prelude::*;

use crate::app::App;
use crate::footer::{behind_scheme, host_end, host_of, scheme_end};
use crate::geometry::Rect;
use crate::modals::confirm::DISMISS_KEYS;
use crate::modals::{code_row, gaps, line_cells, line_width, make_room_for_qr};
use crate::outside::qr_modules;
use crate::qr::{cells_of, encode, Qr};
use crate::share::{frame_at, Opening, Serving};
use crate::styled::{blank, line_of, nothing, Ink, Line, LineView, Text};
use crate::text::{cat, chars_of, count, cut, string_between, truncate};

verus! {

/// Where a link goes, without the token that opens it.
pub open spec fn origin(url: Seq<char>) -> Seq<char> {
    let at = scheme_end(url, 0);
    if 0 < at < url.len() {
        url.take(at) + "://"@ + host_of(url)
    } else {
        host_of(url)
    }
}

/// Where a link goes, without the token that opens it.
pub fn origin_of(url: &str) -> (r: String)
    ensures
        r@ == origin(url@),
{
    let v = chars_of(url);
    let n: usize = v.len();
    let mut at: usize = 0;
    while at < n && n - at >= 3 && !(v[at] == ':' && v[at + 1] == '/' && v[at + 2] == '/')
        invariant
            at <= n,
            n == v@.len(),
            scheme_end(v@, 0) == scheme_end(v@, at as int),
        decreases n - at,
    {
        at += 1;
    }
    let has = n - at >= 3;
    let from: usize = if has {
        at + 3
    } else {
        0
    };
    let ghost rest = behind_scheme(url@);
    assert(rest =~= v@.skip(from as int));
    let mut to: usize = from;
    while to < n && v[to] != '/' && v[to] != '?'
        invariant
            from <= to <= n,
            n == v@.len(),
            rest == v@.skip(from as int),
            host_end(rest, 0) == host_end(rest, to - from),
        decreases n - to,
    {
        to += 1;
    }
    let host = string_between(&v, from, to);
    assert(host@ =~= host_of(url@));
    if has && at > 0 {
        let mut s = string_between(&v, 0, at);
        assert(s@ =~= url@.take(at as int));
        s.append("://");
        s.append(host.as_str());
        s
    } else {
        host
    }
}

proof fn host_stops(s: Seq<char>, i: int)
    requires
        0 <= i <= s.len(),
    ensures
        i <= host_end(s, i) <= s.len(),
        host_end(s, i) < s.len() ==> s[host_end(s, i)] == '/' || s[host_end(s, i)] == '?',
    decreases s.len() - i,
{
    if i < s.len() && s[i] != '/' && s[i] != '?' {
        host_stops(s, i + 1);
    }
}

proof fn scheme_stops(s: Seq<char>, i: int)
    requires
        0 <= i <= s.len(),
    ensures
        i <= scheme_end(s, i) <= s.len(),
        scheme_end(s, i) < s.len() ==> scheme_end(s, i) + 3 <= s.len() && s[scheme_end(s, i)] == ':' && s[scheme_end(s, i)
            + 1] == '/' && s[scheme_end(s, i) + 2] == '/',
    decreases s.len() - i,
{
    if i + 3 <= s.len() && !(s[i] == ':' && s[i + 1] == '/' && s[i + 2] == '/') {
        scheme_stops(s, i + 1);
    }
}

/// What is shown of a link with a scheme is how the link begins, up to its path or
/// its query: nothing of either is shown.
pub proof fn an_origin_stops_before_the_token(url: Seq<char>)
    requires
        0 < scheme_end(url, 0) < url.len(),
    ensures
        origin(url).len() <= url.len(),
        origin(url) == url.take(origin(url).len() as int),
        origin(url).len() < url.len() ==> url[origin(url).len() as int] == '/' || url[origin(url).len() as int] == '?',
{
    let at = scheme_end(url, 0);
    let rest = behind_scheme(url);
    scheme_stops(url, 0);
    host_stops(rest, 0);
    reveal_strlit("://");
    assert(origin(url) =~= url.take(origin(url).len() as int));
    let h = host_end(rest, 0);
    if h < rest.len() {
        assert(rest[h] == url[at + 3 + h]);
    }
}

/// The lines of a link.
pub open spec fn link_lines(what: Seq<char>, url: Seq<char>) -> Seq<LineView> {
    nothing().push(blank().with(" "@ + what, Ink::Dim)).push(blank().with("  "@ + origin(url), Ink::Accent))
}

fn put_link(t: &mut Text, links: &mut Vec<(String, String)>, what: &str, url: &String)
    ensures
        final(t)@ == old(t)@ + link_lines(what@, url@),
        final(links)@.len() == old(links)@.len() + 1,
        final(links)@.take(old(links)@.len() as int) == old(links)@,
        final(links)@.last().0@ == origin(url@),
        final(links)@.last().1@ == url@,
{
    let ghost was = t@;
    t.push(line_of(cat(" ", what).as_str(), Ink::Dim));
    let from = origin_of(url.as_str());
    t.push(line_of(cat("  ", from.as_str()).as_str(), Ink::Accent));
    assert(t@ =~= was + link_lines(what@, url@));
    let ghost before = links@;
    links.push((from, url.clone()));
    assert(links@.take(before.len() as int) =~= before);
}

/// What is said of what is served.
pub open spec fn served_lines(serving: Option<Serving>, code: bool) -> Seq<LineView> {
    match serving {
        None => nothing().push(blank().with(" Nothing is being served. The table can be a page,"@, Ink::Plain)).push(
            blank().with(" with cctop still running here."@, Ink::Plain),
        ),
        Some(s) => {
            let here = nothing() + link_lines("This machine"@, s.local@);
            let out = match s.public {
                None => here.push(blank()).push(
                    blank().with(" No tunnel — nothing off this machine can reach it."@, Ink::Dim),
                ),
                Some(public) => {
                    let all = (here.push(blank()) + link_lines("The internet"@, public@)).push(blank()).push(
                        blank().with(" Anyone holding it reads every session here,"@, Ink::Mid),
                    ).push(
                        blank().with(
                            if s.actions {
                                " and can type at your agents. Cloudflare carries it."@
                            } else {
                                " but cannot act. Cloudflare carries it."@
                            },
                            Ink::Mid,
                        ),
                    );
                    if code {
                        all.push(blank())
                    } else {
                        all
                    }
                },
            };
            if s.readonly@.len() > 0 {
                out.push(blank()) + link_lines("Read-only — watches, never acts"@, s.readonly@)
            } else {
                out
            }
        },
    }
}

/// Where each link that is shown goes, from the top: what is drawn, and the link
/// behind it.
pub open spec fn served_links(serving: Option<Serving>) -> Seq<(Seq<char>, Seq<char>)> {
    match serving {
        None => Seq::empty(),
        Some(s) => {
            let v = seq![(origin(s.local@), s.local@)];
            let v = match s.public {
                Some(p) => v.push((origin(p@), p@)),
                None => v,
            };
            if s.readonly@.len() > 0 {
                v.push((origin(s.readonly@), s.readonly@))
            } else {
                v
            }
        },
    }
}

/// What links say.
pub open spec fn links_say(v: Seq<(String, String)>) -> Seq<(Seq<char>, Seq<char>)> {
    v.map_values(|l: (String, String)| (l.0@, l.1@))
}

/// The line a code stands at, under the warning of what holding it grants.
pub const CODE_AT: usize = 9;

/// The panel's keys.
pub open spec fn serve_keys(serving: Option<Serving>, code: bool) -> Seq<char> {
    match serving {
        None => " l this machine only · t also a public tunnel"@,
        Some(s) => if s.public is None {
            " o open · y copy · l local · t + tunnel · x stop"@
        } else if code {
            " o open · y copy · c hide QR · l local · t + tunnel · x stop"@
        } else {
            " o open · y copy · c QR code · l local · t + tunnel · x stop"@
        },
    }
}

/// The panel, before room is made for a code.
pub open spec fn serve_lines(
    serving: Option<Serving>,
    opening: Option<Opening>,
    error: Option<String>,
    code: bool,
    now: u64,
) -> Seq<LineView> {
    let all = served_lines(serving, code);
    let all = match opening {
        Some(o) => all.push(blank()).push(
            blank().with(
                " "@ + seq![
                    frame_at(
                        if now >= o.since {
                            now - o.since
                        } else {
                            0
                        },
                    ),
                ] + " Opening a tunnel to trycloudflare…"@,
                Ink::Mid,
            ),
        ),
        None => all,
    };
    let all = match error {
        Some(e) => all.push(blank()).push(blank().with(" "@ + cut(e@, 58), Ink::High)),
        None => all,
    };
    all.push(blank()).push(blank().with(serve_keys(serving, code), Ink::Dim))
}

/// The cells of the widest of the first `n` lines.
pub open spec fn widest(lines: Seq<LineView>, n: int) -> int
    decreases n,
{
    if n <= 0 {
        0
    } else if line_cells(lines[n - 1]) > widest(lines, n - 1) {
        line_cells(lines[n - 1])
    } else {
        widest(lines, n - 1)
    }
}

fn widest_of(t: &Text) -> (r: u128)
    ensures
        r == widest(t@, t@.len() as int),
{
    let mut most: u128 = 0;
    let mut i: usize = 0;
    while i < t.lines.len()
        invariant
            i <= t.lines@.len(),
            most == widest(t@, i as int),
        decreases t.lines@.len() - i,
    {
        assert(t@[i as int] == t.lines@[i as int]@);
        let w: u128 = line_width(&t.lines[i]);
        if w > most {
            most = w;
        }
        i += 1;
    }
    most
}

/// The columns of the panel: those of its longest line, or of its code, but no
/// more than the screen has.
pub open spec fn panel_width(longest: int, code: Option<Qr>, area: Rect) -> int {
    let text = if longest + 3 > u16::MAX {
        u16::MAX as int
    } else {
        longest + 3
    };
    let code = match code {
        Some(qr) => qr.width + 4,
        None => 0,
    };
    let want = if text < code {
        code
    } else {
        text
    };
    let want = if want < 56 {
        56
    } else {
        want
    };
    let most = if area.width < 28 {
        24
    } else {
        area.width - 4
    };
    if want < most {
        want
    } else {
        most
    }
}

fn panel_columns(longest: u128, code: &Option<Qr>, area: Rect) -> (r: u16)
    requires
        code matches Some(qr) ==> qr.width <= 185,
    ensures
        r == panel_width(longest as int, *code, area),
{
    let text: u16 = if longest > u16::MAX as u128 - 3 {
        u16::MAX
    } else {
        longest as u16 + 3
    };
    let code: u16 = match code {
        Some(qr) => qr.width + 4,
        None => 0,
    };
    let want: u16 = if text < code {
        code
    } else {
        text
    };
    let want: u16 = if want < 56 {
        56
    } else {
        want
    };
    let most: u16 = if area.width < 28 {
        24
    } else {
        area.width - 4
    };
    if want < most {
        want
    } else {
        most
    }
}

/// The code of a link.
pub open spec fn code_of(url: Seq<char>) -> Option<Qr> {
    match qr_modules(url) {
        Some(n) => Some(cells_of(n as int)),
        None => None,
    }
}

/// What is said where there is no room for a code: a key that does nothing reads
/// as a dead one.
pub open spec fn no_room() -> LineView {
    blank().with(" No room here for a QR code — try a taller terminal."@, Ink::Dim)
}

/// A panel that may have a code in it.
pub struct CodePanel {
    pub text: Text,
    pub width: u16,
    /// The row the code starts on, and the code.
    pub code: Option<(u16, Qr)>,
}

impl CodePanel {
    /// Whether this is the panel of `lines` with `code` at line `at`.
    pub open spec fn with_code(&self, area: Rect, lines: Seq<LineView>, at: int, code: Option<Qr>, width: int) -> bool {
        &&& self.width == width
        &&& match code {
            Some(qr) => match code_row(area, width as u16, lines, at, qr) {
                Some(row) => {
                    &&& self.code == Some((row, qr))
                    &&& self.text@ == lines.take(at) + gaps(qr.height as int) + lines.skip(at)
                },
                None => self.code is None && self.text@ == lines.insert(at, no_room()),
            },
            None => self.code is None && self.text@ == lines.insert(at, no_room()),
        }
    }
}

fn insert_line(t: &mut Text, at: usize, line: Line)
    requires
        at <= old(t)@.len(),
    ensures
        final(t)@ == old(t)@.insert(at as int, line@),
{
    let ghost was = t@;
    let ghost lv = line@;
    assert(t.lines@.len() == was.len());
    t.lines.insert(at, line);
    assert(t@ =~= was.insert(at as int, lv));
}

proof fn a_code_stands_under_the_warning(serving: Option<Serving>)
    requires
        serving is Some,
        serving->0.public is Some,
    ensures
        served_lines(serving, true).len() >= CODE_AT,
{
}

impl App {
    /// The panel of what is served, in an area, and where its links go. `code`
    /// says whether the tunnel's link is to be drawn as a code: only the
    /// tunnel's, since a phone cannot reach this machine's own.
    pub fn serve_panel(&self, area: Rect, code: bool) -> (r: (CodePanel, Vec<(String, String)>))
        ensures
            ({
                let lines = serve_lines(self.serving, self.share_opening, self.serve_error, code, self.now);
                let longest = widest(lines, lines.len() as int);
                &&& links_say(r.1@) == served_links(self.serving)
                &&& match self.serving {
                    Some(s) => match s.public {
                        Some(p) => if code {
                            r.0.with_code(
                                area,
                                lines,
                                CODE_AT as int,
                                code_of(p@),
                                panel_width(longest, code_of(p@), area),
                            )
                        } else {
                            r.0.text@ == lines && r.0.width == panel_width(longest, None, area) && r.0.code is None
                        },
                        None => r.0.text@ == lines && r.0.width == panel_width(longest, None, area) && r.0.code is None,
                    },
                    None => r.0.text@ == lines && r.0.width == panel_width(longest, None, area) && r.0.code is None,
                }
            }),
    {
        let mut links: Vec<(String, String)> = Vec::new();
        let mut t = Text::new();
        let mut public: Option<&String> = None;
        assert(links_say(links@) =~= Seq::empty());
        match &self.serving {
            None => {
                t.push(line_of(" Nothing is being served. The table can be a page,", Ink::Plain));
                t.push(line_of(" with cctop still running here.", Ink::Plain));
            },
            Some(s) => {
                put_link(&mut t, &mut links, "This machine", &s.local);
                assert(links_say(links@) =~= seq![(origin(s.local@), s.local@)]);
                match &s.public {
                    None => {
                        t.gap();
                        t.push(line_of(" No tunnel — nothing off this machine can reach it.", Ink::Dim));
                    },
                    Some(p) => {
                        public = Some(p);
                        t.gap();
                        let ghost had = links@;
                        put_link(&mut t, &mut links, "The internet", p);
                        assert(links_say(links@) =~= links_say(had).push((origin(p@), p@))) by {
                            assert(links@ =~= had.push(links@.last()));
                        }
                        t.gap();
                        t.push(line_of(" Anyone holding it reads every session here,", Ink::Mid));
                        t.push(
                            line_of(
                                if s.actions {
                                    " and can type at your agents. Cloudflare carries it."
                                } else {
                                    " but cannot act. Cloudflare carries it."
                                },
                                Ink::Mid,
                            ),
                        );
                        if code {
                            t.gap();
                        }
                    },
                }
                if count(s.readonly.as_str()) > 0 {
                    t.gap();
                    let ghost had = links@;
                    put_link(&mut t, &mut links, "Read-only — watches, never acts", &s.readonly);
                    assert(links_say(links@) =~= links_say(had).push((origin(s.readonly@), s.readonly@))) by {
                        assert(links@ =~= had.push(links@.last()));
                    }
                }
            },
        }
        assert(t@ == served_lines(self.serving, code));
        match &self.share_opening {
            Some(o) => {
                t.gap();
                let mut s = " ".to_owned();
                let frame = o.frame(self.now);
                s.push(frame);
                assert(s@ =~= " "@ + seq![frame]);
                s.append(" Opening a tunnel to trycloudflare…");
                t.push(line_of(s.as_str(), Ink::Mid));
            },
            None => {},
        }
        match &self.serve_error {
            Some(e) => {
                t.gap();
                t.push(line_of(cat(" ", truncate(e.as_str(), 58).as_str()).as_str(), Ink::High));
            },
            None => {},
        }
        let keys = match &self.serving {
            None => " l this machine only · t also a public tunnel",
            Some(s) => if s.public.is_none() {
                " o open · y copy · l local · t + tunnel · x stop"
            } else if code {
                " o open · y copy · c hide QR · l local · t + tunnel · x stop"
            } else {
                " o open · y copy · c QR code · l local · t + tunnel · x stop"
            },
        };
        t.gap();
        t.push(line_of(keys, Ink::Dim));
        let ghost lines = serve_lines(self.serving, self.share_opening, self.serve_error, code, self.now);
        assert(t@ == lines);
        let longest: u128 = widest_of(&t);
        match public {
            Some(p) => {
                if code {
                    proof {
                        a_code_stands_under_the_warning(self.serving);
                    }
                    let qr = encode(p.as_str());
                    let width: u16 = panel_columns(longest, &qr, area);
                    let row: Option<u16> = match &qr {
                        Some(q) => make_room_for_qr(area, width, &mut t, CODE_AT, q),
                        None => None,
                    };
                    match (row, qr) {
                        (Some(at), Some(q)) => {
                            return (CodePanel { text: t, width, code: Some((at, q)) }, links);
                        },
                        _ => {
                            insert_line(
                                &mut t,
                                CODE_AT,
                                line_of(" No room here for a QR code — try a taller terminal.", Ink::Dim),
                            );
                            return (CodePanel { text: t, width, code: None }, links);
                        },
                    }
                }
            },
            None => {},
        }
        let none: Option<Qr> = None;
        let width: u16 = panel_columns(longest, &none, area);
        (CodePanel { text: t, width, code: None }, links)
    }
}

/// A terminal that has just been shared off this machine.
pub struct ShareCode {
    pub label: String,
    /// The link that grants input.
    pub link: String,
    pub pin: Option<String>,
}

/// What is said of a terminal that has been shared. The warning stands right under
/// the code: whoever opens the link types at the agent.
pub open spec fn share_code_lines(share: ShareCode) -> Seq<LineView> {
    let top = nothing().push(blank().with(" "@ + cut(share.label@, 50), Ink::Value)).push(blank()).push(blank());
    let top = match share.pin {
        Some(pin) => top.push(
            blank().with(" Pairing code "@, Ink::Plain).with(pin@, Ink::Value).with(
                " — asked for once the link opens."@,
                Ink::Dim,
            ),
        ),
        None => top,
    };
    top.push(blank().with(" Whoever holds this link can type at the agent."@, Ink::Mid)).push(
        blank().with(" It is on your clipboard as well."@, Ink::Dim),
    ).push(blank()).push(blank().with(DISMISS_KEYS@, Ink::Dim))
}

/// A terminal that has been shared, as a code a phone can scan. Where there is no
/// room for the code the panel still opens and says so: the link is on the
/// clipboard either way.
pub fn share_code(share: &ShareCode, area: Rect) -> (r: CodePanel)
    ensures
        ({
            let lines = share_code_lines(*share);
            let qr = code_of(share.link@);
            &&& r.width == panel_width(0, qr, area)
            &&& match qr {
                Some(q) => match code_row(area, r.width, lines, 2, q) {
                    Some(row) => r.code == Some((row, q)) && r.text@ == lines.take(2) + gaps(q.height as int)
                        + lines.skip(2),
                    None => r.code is None && r.text@ == lines.update(2, no_room()),
                },
                None => r.code is None && r.text@ == lines.update(2, no_room()),
            }
        }),
{
    let mut t = Text::new();
    t.push(line_of(cat(" ", truncate(share.label.as_str(), 50).as_str()).as_str(), Ink::Value));
    t.gap();
    t.gap();
    match &share.pin {
        Some(pin) => {
            let mut l = Line::new();
            l.put(" Pairing code ", Ink::Plain);
            l.put(pin.as_str(), Ink::Value);
            l.put(" — asked for once the link opens.", Ink::Dim);
            t.push(l);
        },
        None => {},
    }
    t.push(line_of(" Whoever holds this link can type at the agent.", Ink::Mid));
    t.push(line_of(" It is on your clipboard as well.", Ink::Dim));
    t.gap();
    t.push(line_of(DISMISS_KEYS, Ink::Dim));
    let ghost lines = share_code_lines(*share);
    assert(t@ == lines);
    let qr = encode(share.link.as_str());
    let width: u16 = panel_columns(0, &qr, area);
    let row: Option<u16> = match &qr {
        Some(q) => make_room_for_qr(area, width, &mut t, 2, q),
        None => None,
    };
    match (row, qr) {
        (Some(at), Some(q)) => CodePanel { text: t, width, code: Some((at, q)) },
        _ => {
            let note = line_of(" No room here for a QR code — try a taller terminal.", Ink::Dim);
            assert(t.lines@.len() == t@.len());
            let ghost nv = note@;
            t.lines.set(2, note);
            assert(t@ =~= lines.update(2, nv));
            CodePanel { text: t, width, code: None }
        },
    }
}

/// A link that is shown leads where it says: to this machine, to the internet where
/// there is a tunnel, and to the page that only reads where there is one; a page that
/// nobody serves has none.
pub proof fn a_link_leads_where_it_says(serving: Option<Serving>)
    ensures
        serving is None ==> served_links(serving).len() == 0,
        serving matches Some(s) ==> {
            &&& served_links(serving)[0] == (origin(s.local@), s.local@)
            &&& s.public matches Some(p) ==> served_links(serving)[1] == (origin(p@), p@)
            &&& s.readonly@.len() > 0 ==> served_links(serving).last() == (origin(s.readonly@), s.readonly@)
            &&& served_links(serving).len() == 1 + (if s.public is Some {
                1int
            } else {
                0
            }) + (if s.readonly@.len() > 0 {
                1int
            } else {
                0
            })
        },
{
}

/// Every link is drawn under what it leads to, by its origin and never by its token; a
/// page that can be reached from outside says so, and whether it can act.
pub proof fn a_page_says_who_can_reach_it(s: Serving)
    ensures
        ({
            let t = served_lines(Some(s), false);
            &&& t[0].spans[0].text == " "@ + "This machine"@
            &&& t[1].spans[0].text == "  "@ + origin(s.local@)
            &&& s.public is None ==> t[3].spans[0].text == " No tunnel — nothing off this machine can reach it."@
            &&& s.public matches Some(p) ==> {
                &&& t[3].spans[0].text == " "@ + "The internet"@
                &&& t[4].spans[0].text == "  "@ + origin(p@)
                &&& t[6].spans[0].text == " Anyone holding it reads every session here,"@
                &&& s.actions ==> t[7].spans[0].text == " and can type at your agents. Cloudflare carries it."@
                &&& !s.actions ==> t[7].spans[0].text == " but cannot act. Cloudflare carries it."@
            }
            &&& s.readonly@.len() > 0 ==> t.last().spans[0].text == "  "@ + origin(s.readonly@)
        }),
{
}

/// The panel is as wide as its widest line: none is wider, and one is as wide.
pub proof fn the_widest_line_is_one_of_them(lines: Seq<LineView>, n: int, i: int)
    requires
        0 <= n <= lines.len(),
    ensures
        0 <= i < n ==> line_cells(lines[i]) <= widest(lines, n),
        widest(lines, n) == 0 || exists|k: int| 0 <= k < n && line_cells(#[trigger] lines[k]) == widest(lines, n),
        widest(lines, n) >= 0,
    decreases n,
{
    if n > 0 {
        the_widest_line_is_one_of_them(lines, n - 1, i);
        if widest(lines, n) == line_cells(lines[n - 1]) {
            assert(line_cells(lines[n - 1]) == widest(lines, n));
        }
    }
}

/// A terminal that was shared is named, with the code it is paired by and what the link
/// lets its holder do.
pub proof fn a_shared_terminal_says_what_its_link_can_do(share: ShareCode)
    ensures
        ({
            let t = share_code_lines(share);
            let at = if share.pin is Some {
                4int
            } else {
                3
            };
            &&& t[0].spans[0].text == " "@ + cut(share.label@, 50)
            &&& share.pin matches Some(pin) ==> t[3].spans[1].text == pin@
            &&& t[at].spans[0].text == " Whoever holds this link can type at the agent."@
            &&& t[at].spans[0].ink == Ink::Mid
            &&& t.len() == at + 4
        }),
{
}

} // verus!
