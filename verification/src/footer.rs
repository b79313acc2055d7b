//! The footer: the keys that matter now, what the dashboard is doing, and the
//! corner a link to it is shared from.

use vstd::prelude::*;

use crate::app::{App, Effect, Mode};
use crate::figures::{compact_usd, usd_text};
use crate::geometry::Rect;
use crate::keyboard::{Key, KeyCode};
use crate::keys::KeySet;
use crate::outside::maybe_text;
use crate::quota::maybe;
use crate::share::{frame_at, Opening};
use crate::sound::Player;
use crate::styled::{blank, line_of, Ink, Line, LineView, SpanView};
use crate::text::{
    after_prefix, begins, cat, chars_of, count, dec, decimal, ends, push_word, same, string_between, string_of, words,
};

verus! {

/// What has been done to the table: marked, filtered, armed.
pub struct Desk {
    /// The marked sessions, by key.
    pub marked: KeySet,
    /// Whether the view follows what is newest.
    pub follow: bool,
    /// Whether another click on the quit hint quits.
    pub quit_arm: bool,
    /// Whether another click on the corner publishes.
    pub share_arm: bool,
    /// The version an update would bring.
    pub update_available: Option<String>,
    pub search: String,
    /// Whether transcripts are searched.
    pub search_content: bool,
    /// Whether that is still going on.
    pub scanning: bool,
    /// How many transcripts the search is in.
    pub scan_hits: usize,
    /// How old a row may be, in short.
    pub age: Option<String>,
    /// How much a row has to have cost.
    pub cost_floor: u64,
    pub help_scroll: u16,
    pub help_max_scroll: u16,
    /// Whether the table has been read at all.
    pub loaded: bool,
    /// The sessions being deleted, by key.
    pub deleting: KeySet,
    /// The report on every transcript.
    pub insight: Option<String>,
    pub insight_scroll: u16,
    /// When the image shown in the corner was pasted.
    pub pasted_at: Option<u64>,
}

impl Desk {
    /// Whether nothing has been done yet.
    pub open spec fn untouched(&self) -> bool {
        &&& self.marked.items@.len() == 0
        &&& self.search@.len() == 0
        &&& self.deleting.items@.len() == 0
        &&& *self == (Desk {
            marked: self.marked,
            follow: false,
            quit_arm: false,
            share_arm: false,
            update_available: None,
            search: self.search,
            search_content: false,
            scanning: false,
            scan_hits: 0,
            age: None,
            cost_floor: 0,
            help_scroll: 0,
            help_max_scroll: 0,
            loaded: false,
            deleting: self.deleting,
            insight: None,
            insight_scroll: 0,
            pasted_at: None,
        })
    }

    /// Nothing done yet.
    pub fn new() -> (r: Desk)
        ensures
            r.untouched(),
    {
        Desk {
            marked: KeySet::new(),
            follow: false,
            quit_arm: false,
            share_arm: false,
            update_available: None,
            search: String::new(),
            search_content: false,
            scanning: false,
            scan_hits: 0,
            age: None,
            cost_floor: 0,
            help_scroll: 0,
            help_max_scroll: 0,
            loaded: false,
            deleting: KeySet::new(),
            insight: None,
            insight_scroll: 0,
            pasted_at: None,
        }
    }
}

/// A key hint, and what it is for.
#[derive(Debug, Clone, Copy)]
pub struct Hint {
    pub key: &'static str,
    pub name: &'static str,
}

/// What a hint says: its key and its name.
pub type HintView = (Seq<char>, Seq<char>);

/// What the hints say.
pub open spec fn hints_view(v: Seq<Hint>) -> Seq<HintView> {
    v.map_values(|h: Hint| (h.key@, h.name@))
}

/// How many cells a hint takes up: the key, a blank, the name, a blank.
pub open spec fn hint_width(h: HintView) -> int {
    h.0.len() as int + h.1.len() + 2
}

/// The key a hint stands for. None for the hints that name more than one: a click
/// cannot say which half was meant.
pub open spec fn hint_key(key: Seq<char>) -> Option<Key> {
    if key == "↑↓"@ || key == "Alt+←→"@ || key == "Alt+v/s"@ {
        None
    } else if key == "↵"@ {
        Some(Key::plain(KeyCode::Enter))
    } else if key == "Esc"@ {
        Some(Key::plain(KeyCode::Esc))
    } else if key == "Tab"@ {
        Some(Key::plain(KeyCode::Tab))
    } else if key == "Space"@ {
        Some(Key::plain(KeyCode::Char(' ')))
    } else if key == "F1"@ {
        Some(Key::plain(KeyCode::F(1)))
    } else if key == "F9"@ {
        Some(Key::plain(KeyCode::F(9)))
    } else if key == "F10"@ {
        Some(Key::plain(KeyCode::F(10)))
    } else if key == "F12"@ {
        Some(Key::plain(KeyCode::F(12)))
    } else if begins(key, "Alt+"@) {
        Some(Key { code: KeyCode::Char(key.last()), ctrl: false, alt: true, shift: false })
    } else if key.len() == 1 {
        Some(Key::plain(KeyCode::Char(key[0])))
    } else {
        None
    }
}

impl Hint {
    /// How many cells the hint takes up.
    pub fn width(&self) -> (r: u128)
        ensures
            r == hint_width((self.key@, self.name@)),
            r <= 0x4_0000_0000_0000_0000,
    {
        count(self.key) as u128 + count(self.name) as u128 + 2
    }

    /// The key this hint stands for, so that a click on it can be answered by
    /// pressing that key.
    pub fn event(&self) -> (r: Option<Key>)
        ensures
            r == hint_key(self.key@),
    {
        let k = self.key;
        if same(k, "↑↓") || same(k, "Alt+←→") || same(k, "Alt+v/s") {
            return None;
        }
        if same(k, "↵") {
            return Some(Key::of(KeyCode::Enter));
        }
        if same(k, "Esc") {
            return Some(Key::of(KeyCode::Esc));
        }
        if same(k, "Tab") {
            return Some(Key::of(KeyCode::Tab));
        }
        if same(k, "Space") {
            return Some(Key::of(KeyCode::Char(' ')));
        }
        if same(k, "F1") {
            return Some(Key::of(KeyCode::F(1)));
        }
        if same(k, "F9") {
            return Some(Key::of(KeyCode::F(9)));
        }
        if same(k, "F10") {
            return Some(Key::of(KeyCode::F(10)));
        }
        if same(k, "F12") {
            return Some(Key::of(KeyCode::F(12)));
        }
        let v = chars_of(k);
        let n: usize = v.len();
        if after_prefix(k, "Alt+").is_some() {
            proof {
                reveal_strlit("Alt+");
            }
            return Some(Key { code: KeyCode::Char(v[n - 1]), ctrl: false, alt: true, shift: false });
        }
        if n == 1 {
            Some(Key::of(KeyCode::Char(v[0])))
        } else {
            None
        }
    }
}

/// A hint.
pub fn hint(key: &'static str, name: &'static str) -> (r: Hint)
    ensures
        r.key@ == key@,
        r.name@ == name@,
{
    Hint { key, name }
}

fn put_hint(v: &mut Vec<Hint>, key: &'static str, name: &'static str)
    ensures
        hints_view(final(v)@) == hints_view(old(v)@).push((key@, name@)),
{
    v.push(Hint { key, name });
    assert(hints_view(v@) =~= hints_view(old(v)@).push((key@, name@)));
}

/// How many of the hints fit into `room` before one does not, the first `i` of
/// them being laid out.
pub open spec fn fitting(hints: Seq<HintView>, room: int, i: int) -> int
    decreases hints.len() - i,
{
    if i < 0 || i >= hints.len() || hint_width(hints[i]) > room {
        i
    } else {
        fitting(hints, room - hint_width(hints[i]), i + 1)
    }
}

/// The first `n` hints, drawn.
pub open spec fn hint_line(hints: Seq<HintView>, n: int) -> LineView
    decreases n,
{
    if n <= 0 {
        blank()
    } else {
        hint_line(hints, n - 1).with(hints[n - 1].0, Ink::KeyCap).with(" "@ + hints[n - 1].1 + " "@, Ink::Dim)
    }
}

/// How many cells the first `n` hints take up.
pub open spec fn hints_width(hints: Seq<HintView>, n: int) -> int
    decreases n,
{
    if n <= 0 {
        0
    } else {
        hints_width(hints, n - 1) + hint_width(hints[n - 1])
    }
}

/// Where the first `n` hints can be clicked, and the key each stands for. The
/// whole chip, key and name together, is one button.
pub open spec fn hint_hits(hints: Seq<HintView>, x: int, row: u16, n: int) -> Seq<(u16, u16, u16, Key)>
    decreases n,
{
    if n <= 0 {
        Seq::empty()
    } else {
        let before = hint_hits(hints, x, row, n - 1);
        match hint_key(hints[n - 1].0) {
            Some(key) => before.push(
                (row, (x + hints_width(hints, n - 1)) as u16, (x + hints_width(hints, n)) as u16, key),
            ),
            None => before,
        }
    }
}

/// Lay hints out left to right until the next one would not fit, then stop, and
/// say where each can be clicked.
///
/// A hint that does not fit whole is not shown: half a key teaches the wrong key.
pub fn fit_hints_at(hints: &Vec<Hint>, room: usize, x: u16, row: u16) -> (r: (Line, Vec<(u16, u16, u16, Key)>))
    requires
        x + room <= u16::MAX,
    ensures
        ({
            let hv = hints_view(hints@);
            let n = fitting(hv, room as int, 0);
            r.0@ == hint_line(hv, n) && r.1@ == hint_hits(hv, x as int, row, n)
        }),
{
    let ghost hv = hints_view(hints@);
    let mut l = Line::new();
    let mut hits: Vec<(u16, u16, u16, Key)> = Vec::new();
    let mut left: usize = room;
    let mut at: u16 = x;
    let mut i: usize = 0;
    while i < hints.len()
        invariant
            i <= hints@.len(),
            hv == hints_view(hints@),
            x + room <= u16::MAX,
            at == x + hints_width(hv, i as int),
            at + left == x + room,
            l@ == hint_line(hv, i as int),
            hits@ == hint_hits(hv, x as int, row, i as int),
            fitting(hv, room as int, 0) == fitting(hv, left as int, i as int),
        decreases hints@.len() - i,
    {
        let h = &hints[i];
        assert(hv[i as int] == (h.key@, h.name@));
        let w: u128 = h.width();
        if w > left as u128 {
            return (l, hits);
        }
        let w: u16 = w as u16;
        let next: u16 = at + w;
        match h.event() {
            Some(key) => {
                hits.push((row, at, next, key));
            },
            None => {},
        }
        left = left - w as usize;
        at = next;
        l.put(h.key, Ink::KeyCap);
        let mut name = cat(" ", h.name);
        name.append(" ");
        l.put(name.as_str(), Ink::Dim);
        i += 1;
    }
    (l, hits)
}

/// Lay hints out left to right until the next one would not fit, then stop.
pub fn fit_hints(hints: &Vec<Hint>, room: usize) -> (r: Line)
    ensures
        r@ == hint_line(hints_view(hints@), fitting(hints_view(hints@), room as int, 0)),
{
    let ghost hv = hints_view(hints@);
    let mut l = Line::new();
    let mut left: usize = room;
    let mut i: usize = 0;
    while i < hints.len()
        invariant
            i <= hints@.len(),
            hv == hints_view(hints@),
            l@ == hint_line(hv, i as int),
            fitting(hv, room as int, 0) == fitting(hv, left as int, i as int),
        decreases hints@.len() - i,
    {
        let h = &hints[i];
        assert(hv[i as int] == (h.key@, h.name@));
        let w: u128 = h.width();
        if w > left as u128 {
            return l;
        }
        left = left - w as usize;
        l.put(h.key, Ink::KeyCap);
        let mut name = cat(" ", h.name);
        name.append(" ");
        l.put(name.as_str(), Ink::Dim);
        i += 1;
    }
    l
}

/// What is laid out fits the room, and is cut at a hint.
pub proof fn hints_fit_the_room(hints: Seq<HintView>, room: int, i: int)
    requires
        0 <= i <= hints.len(),
        0 <= room,
    ensures
        i <= fitting(hints, room, i) <= hints.len(),
        hints_width(hints, fitting(hints, room, i)) - hints_width(hints, i) <= room,
        fitting(hints, room, i) < hints.len() ==> hints_width(hints, fitting(hints, room, i) + 1) - hints_width(hints, i)
            > room,
    decreases hints.len() - i,
{
    if i < hints.len() && hint_width(hints[i]) <= room {
        hints_fit_the_room(hints, room - hint_width(hints[i]), i + 1);
    }
}

/// The keys a terminal tab keeps while the others belong to its agent.
pub open spec fn tab_hints_list() -> Seq<HintView> {
    seq![
        ("F12"@, "Dashboard"@),
        ("Alt+←→"@, "Tabs"@),
        ("Alt+n"@, "New"@),
        ("Alt+w"@, "Close"@),
        ("Alt+o"@, "Focus"@),
        ("F1"@, "Help"@),
        ("F9"@, "Image"@),
        ("Alt+v/s"@, "Split"@),
        ("F10"@, "Quit"@),
    ]
}

/// The keys a terminal tab keeps, most-used first.
pub fn tab_hints() -> (r: Vec<Hint>)
    ensures
        hints_view(r@) == tab_hints_list(),
{
    let mut v: Vec<Hint> = Vec::new();
    assert(hints_view(v@) =~= Seq::<HintView>::empty());
    put_hint(&mut v, "F12", "Dashboard");
    put_hint(&mut v, "Alt+←→", "Tabs");
    put_hint(&mut v, "Alt+n", "New");
    put_hint(&mut v, "Alt+w", "Close");
    put_hint(&mut v, "Alt+o", "Focus");
    put_hint(&mut v, "F1", "Help");
    put_hint(&mut v, "F9", "Image");
    put_hint(&mut v, "Alt+v/s", "Split");
    put_hint(&mut v, "F10", "Quit");
    assert(hints_view(v@) =~= tab_hints_list());
    v
}

/// What the footer's right-hand corner is showing.
///
/// One thing in different states: a tunnel that exists is a link, and one that
/// does not is the button that would make one.
pub enum Corner {
    /// A tunnel is up: its host, and the link behind it.
    Link(String, String),
    /// No tunnel, and a click would open one, after a second click.
    Button(&'static str),
    /// A tunnel is being opened.
    Working(String),
}

impl Corner {
    /// What the corner says.
    pub open spec fn words(&self) -> Seq<char> {
        match self {
            Corner::Link(label, _) => label@,
            Corner::Button(label) => label@,
            Corner::Working(label) => label@,
        }
    }

    /// What the corner says.
    pub fn label(&self) -> (r: &str)
        ensures
            r@ == self.words(),
    {
        match self {
            Corner::Link(label, _) => label.as_str(),
            Corner::Button(label) => label,
            Corner::Working(label) => label.as_str(),
        }
    }
}

/// Cells a share label may take before it is shortened.
pub const LINK_MAX: usize = 30;

/// Cells the hints keep for themselves before the corner is offered any.
pub const LINK_MIN_HINTS: usize = 26;

/// Where `://` stands in `s` from `i` on, `s.len()` where it does not.
pub open spec fn scheme_end(s: Seq<char>, i: int) -> int
    decreases s.len() - i,
{
    if i < 0 || i + 3 > s.len() {
        s.len() as int
    } else if s[i] == ':' && s[i + 1] == '/' && s[i + 2] == '/' {
        i
    } else {
        scheme_end(s, i + 1)
    }
}

/// What stands behind the scheme of a link.
pub open spec fn behind_scheme(url: Seq<char>) -> Seq<char> {
    let at = scheme_end(url, 0);
    if at < url.len() {
        url.skip(at + 3)
    } else {
        url
    }
}

/// Where the path or the query of `s` begins, from `i` on.
pub open spec fn host_end(s: Seq<char>, i: int) -> int
    decreases s.len() - i,
{
    if i < 0 || i >= s.len() || s[i] == '/' || s[i] == '?' {
        i
    } else {
        host_end(s, i + 1)
    }
}

/// The host of a link.
pub open spec fn host_of(url: Seq<char>) -> Seq<char> {
    let rest = behind_scheme(url);
    rest.take(host_end(rest, 0))
}

proof fn host_end_bounds(s: Seq<char>, i: int)
    requires
        0 <= i <= s.len(),
    ensures
        i <= host_end(s, i) <= s.len(),
        forall|k: int| i <= k < host_end(s, i) ==> #[trigger] s[k] != '/' && s[k] != '?',
    decreases s.len() - i,
{
    if i < s.len() && s[i] != '/' && s[i] != '?' {
        host_end_bounds(s, i + 1);
    }
}

proof fn scheme_end_bounds(s: Seq<char>, i: int)
    requires
        0 <= i <= s.len(),
    ensures
        i <= scheme_end(s, i) <= s.len(),
        scheme_end(s, i) < s.len() ==> scheme_end(s, i) + 3 <= s.len(),
    decreases s.len() - i,
{
    if i + 3 <= s.len() && !(s[i] == ':' && s[i + 1] == '/' && s[i + 2] == '/') {
        scheme_end_bounds(s, i + 1);
    }
}

/// A host, shortened from the middle where it is long: its first words tell one
/// tunnel from another, and its domain says where it goes.
pub open spec fn short_host(host: Seq<char>) -> Seq<char> {
    if host.len() <= LINK_MAX {
        host
    } else {
        let keep = if ends(host, "trycloudflare.com"@) {
            "trycloudflare.com"@.len() as int
        } else {
            15
        };
        let first = LINK_MAX - (keep + 1);
        host.take(first) + "…"@ + host.skip(host.len() - keep)
    }
}

/// What a link is called: its host. The token is what opens the page, and the
/// footer is on screen for the whole run.
pub open spec fn link_text(url: Seq<char>) -> Seq<char> {
    "⧉ "@ + short_host(host_of(url))
}

/// A host, shortened from the middle where it is long.
pub fn shorten_host(host: &str) -> (r: String)
    ensures
        r@ == short_host(host@),
{
    let v = chars_of(host);
    let n: usize = v.len();
    if n <= LINK_MAX {
        return host.to_owned();
    }
    proof {
        reveal_strlit("trycloudflare.com");
    }
    let keep: usize = if crate::text::before_suffix(host, "trycloudflare.com").is_some() {
        17
    } else {
        15
    };
    let mut s = string_between(&v, 0, LINK_MAX - (keep + 1));
    assert(s@ =~= host@.take(LINK_MAX - (keep + 1)));
    s.append("…");
    let back = string_between(&v, n - keep, n);
    assert(back@ =~= host@.skip(n - keep));
    s.append(back.as_str());
    s
}

/// What a link is called.
pub fn link_label(url: &str) -> (r: String)
    ensures
        r@ == link_text(url@),
{
    let v = chars_of(url);
    let n: usize = v.len();
    let mut at: usize = 0;
    proof {
        scheme_end_bounds(v@, 0);
    }
    while at < n && n - at >= 3 && !(v[at] == ':' && v[at + 1] == '/' && v[at + 2] == '/')
        invariant
            at <= n,
            n == v@.len(),
            scheme_end(v@, 0) == scheme_end(v@, at as int),
        decreases n - at,
    {
        at += 1;
    }
    let from: usize = if n - at >= 3 {
        at + 3
    } else {
        0
    };
    let ghost rest = behind_scheme(url@);
    assert(rest =~= v@.skip(from as int));
    let mut to: usize = from;
    while to < n && v[to] != '/' && v[to] != '?'
        invariant
            from <= to <= n,
            n == v@.len(),
            rest == v@.skip(from as int),
            host_end(rest, 0) == host_end(rest, to - from),
        decreases n - to,
    {
        to += 1;
    }
    let host = string_between(&v, from, to);
    assert(host@ =~= host_of(url@));
    cat("⧉ ", shorten_host(host.as_str()).as_str())
}

/// Nothing of a link's path or query is in what the link is called, and what it
/// is called has its width.
pub proof fn a_link_is_called_by_its_host(url: Seq<char>)
    ensures
        link_text(url).len() <= LINK_MAX + 2,
        forall|k: int| 0 <= k < host_of(url).len() ==> #[trigger] host_of(url)[k] != '/' && host_of(url)[k] != '?',
{
    let rest = behind_scheme(url);
    scheme_end_bounds(url, 0);
    host_end_bounds(rest, 0);
    assert forall|k: int| 0 <= k < host_of(url).len() implies #[trigger] host_of(url)[k] != '/' && host_of(url)[k]
        != '?' by {
        assert(host_of(url)[k] == rest[k]);
    }
    reveal_strlit("⧉ ");
    reveal_strlit("…");
    reveal_strlit("trycloudflare.com");
}

/// A character that controls a terminal.
pub open spec fn is_control(c: char) -> bool {
    c <= '\u{1f}' || '\u{7f}' <= c <= '\u{9f}'
}

/// `s` without the characters that control a terminal.
pub open spec fn uncontrolled(s: Seq<char>) -> Seq<char>
    decreases s.len(),
{
    if s.len() == 0 {
        Seq::empty()
    } else if is_control(s.last()) {
        uncontrolled(s.drop_last())
    } else {
        uncontrolled(s.drop_last()).push(s.last())
    }
}

fn without_controls(s: &str) -> (r: String)
    ensures
        r@ == uncontrolled(s@),
{
    let v = chars_of(s);
    let mut out = String::new();
    let mut i: usize = 0;
    assert(out@ =~= uncontrolled(v@.take(0)));
    while i < v.len()
        invariant
            i <= v@.len(),
            out@ == uncontrolled(v@.take(i as int)),
        decreases v@.len() - i,
    {
        let c = v[i];
        proof {
            assert(v@.take(i + 1).drop_last() =~= v@.take(i as int));
            assert(v@.take(i + 1).last() == c);
        }
        if !(c <= '\u{1f}' || ('\u{7f}' <= c && c <= '\u{9f}')) {
            out.push(c);
        }
        i += 1;
    }
    assert(v@.take(i as int) =~= v@);
    out
}

/// What one cell holds so that a label is a link: the opening sequence, the label
/// and the closing sequence together, since the pair has to be drawn whole or not
/// at all. None for an empty label.
///
/// A character of the link that controls a terminal would end the sequence early,
/// and is left out.
pub fn hyperlink_cell(label: &str, url: &str) -> (r: Option<String>)
    ensures
        match r {
            Some(s) => label@.len() > 0 && s@ == "\u{1b}]8;;"@ + uncontrolled(url@) + "\u{1b}\\"@ + label@
                + "\u{1b}]8;;\u{1b}\\"@,
            None => label@.len() == 0,
        },
{
    if count(label) == 0 {
        return None;
    }
    let mut s = cat("\u{1b}]8;;", without_controls(url).as_str());
    s.append("\u{1b}\\");
    s.append(label);
    s.append("\u{1b}]8;;\u{1b}\\");
    Some(s)
}

/// No character that controls a terminal is left in what is handed to it.
pub proof fn a_link_controls_nothing(s: Seq<char>)
    ensures
        forall|k: int| 0 <= k < uncontrolled(s).len() ==> !is_control(#[trigger] uncontrolled(s)[k]),
    decreases s.len(),
{
    if s.len() > 0 {
        let before = uncontrolled(s.drop_last());
        a_link_controls_nothing(s.drop_last());
        assert forall|k: int| 0 <= k < uncontrolled(s).len() implies !is_control(#[trigger] uncontrolled(s)[k]) by {
            assert(k < before.len() ==> uncontrolled(s)[k] == before[k]);
        }
    }
}

/// Where the footer's corner goes: the cells it takes from the footer, and the
/// column it begins in. None where that would leave too few for the keys.
///
/// Two cells of gap: one before it, so that it never touches the last badge, and
/// one behind it, since the last cell of a screen is the one a terminal is least
/// willing to paint.
pub fn corner_place(area: Rect, width: usize) -> (r: Option<(u16, u16)>)
    requires
        area.x + area.width <= u16::MAX,
    ensures
        match r {
            Some((reserved, x)) => area.width >= width + 2 + LINK_MIN_HINTS && reserved == width + 2 && x == area.x
                + area.width - width - 1,
            None => area.width < width + 2 + LINK_MIN_HINTS,
        },
{
    if (area.width as u128) < width as u128 + 2 + LINK_MIN_HINTS as u128 {
        return None;
    }
    let w: u16 = width as u16;
    Some((w + 2, area.x + area.width - w - 1))
}

/// The cells the hints get: what the badges leave, but never less than the first
/// three need where the footer has them.
pub open spec fn hint_room(hints: Seq<HintView>, total: int, badges: int) -> int {
    let first = hints_width(
        hints,
        if hints.len() < 3 {
            hints.len() as int
        } else {
            3
        },
    );
    let least = if first < total {
        first
    } else {
        total
    };
    let left = if total > badges {
        total - badges
    } else {
        0
    };
    if left > least {
        left
    } else {
        least
    }
}

fn hint_room_of(hints: &Vec<Hint>, total: usize, badges: usize) -> (r: usize)
    ensures
        r == hint_room(hints_view(hints@), total as int, badges as int),
        r <= total,
{
    let ghost hv = hints_view(hints@);
    let n: usize = if hints.len() < 3 {
        hints.len()
    } else {
        3
    };
    let mut first: u128 = 0;
    let mut i: usize = 0;
    while i < n
        invariant
            i <= n <= 3,
            n <= hints@.len(),
            hv == hints_view(hints@),
            first == hints_width(hv, i as int),
            first <= i * 0x4_0000_0000_0000_0000,
        decreases n - i,
    {
        assert(hv[i as int] == (hints@[i as int].key@, hints@[i as int].name@));
        first = first + hints[i].width();
        i += 1;
    }
    let least: usize = if first < total as u128 {
        first as usize
    } else {
        total
    };
    let left: usize = total.saturating_sub(badges);
    if left > least {
        left
    } else {
        least
    }
}

/// What the hints are for a state of the table.
pub open spec fn list_hints_of(selected: bool, marked: bool, filtered: bool) -> Seq<HintView> {
    let v = seq![("↑↓"@, "Move"@)];
    let v = if selected {
        v.push(("↵"@, "Actions"@))
    } else {
        v
    };
    let v = v.push(("/"@, "Filter"@));
    let v = if marked {
        v.push(("D"@, "Delete marked"@)).push(("K"@, "Kill marked"@)).push(("U"@, "Unmark"@))
    } else {
        v.push(("Space"@, "Mark"@))
    };
    let v = if filtered {
        v.push(("Esc"@, "Clear filter"@))
    } else {
        v
    };
    let v = if selected {
        v.push(("a"@, "Attach"@)).push(("R"@, "Resume"@))
    } else {
        v
    };
    v.push(("t"@, "New tab"@)).push(("Tab"@, "Panel"@)).push(("S"@, "Sort"@)).push(("?"@, "Help"@)).push(
        ("q"@, "Quit"@),
    )
}

/// The badges, in the order they stand in.
pub open spec fn badges(
    desk: Desk,
    bell: Option<Seq<char>>,
    down: Option<Seq<char>>,
    clash: Option<Seq<char>>,
) -> LineView {
    let l = blank();
    let l = if desk.quit_arm {
        l.with(" click q again to quit "@, Ink::High)
    } else {
        l
    };
    let l = match desk.age {
        Some(age) => l.with(" Age<"@ + age@ + " "@, Ink::PanelTitle),
        None => l,
    };
    let l = if desk.search@.len() > 0 {
        l.with(" Filter: "@ + desk.search@ + scope_text(desk) + " "@, Ink::Filter)
    } else {
        l
    };
    let l = if desk.cost_floor > 0 {
        l.with(" ≥"@ + usd_text(desk.cost_floor as nat) + " "@, Ink::High)
    } else {
        l
    };
    let l = if desk.marked.items@.len() > 0 {
        l.with_bold(" ["@ + dec(desk.marked.items@.len()) + " marked] "@, Ink::Accent)
    } else {
        l
    };
    let l = if desk.follow {
        l.with(" FOLLOW "@, Ink::Mid)
    } else {
        l
    };
    let l = match bell {
        Some(b) => l.with_bold(" "@ + b + " "@, Ink::Accent),
        None => l,
    };
    let l = match down {
        Some(d) => l.with(" ⚠ "@ + d + " "@, Ink::Mid),
        None => l,
    };
    let l = match clash {
        Some(c) => l.with_bold(" "@ + c + " "@, Ink::High),
        None => l,
    };
    match desk.update_available {
        Some(v) => l.with_bold(" v"@ + v@ + " available — cctop --update "@, Ink::Mid),
        None => l,
    }
}

/// Whether transcripts are searched, and how many of them a search is in.
pub open spec fn scope_text(desk: Desk) -> Seq<char> {
    if !desk.search_content {
        ""@
    } else if desk.scanning {
        " +transcripts…"@
    } else {
        " +transcripts("@ + dec(desk.scan_hits as nat) + ")"@
    }
}

impl App {
    /// Whether rows are left out of the table.
    pub open spec fn filtered(&self) -> bool {
        self.desk.search@.len() > 0 || self.desk.age is Some || self.desk.cost_floor > 0
    }

    /// Whether rows are left out of the table.
    pub fn has_filter(&self) -> (r: bool)
        ensures
            r == self.filtered(),
    {
        count(self.desk.search.as_str()) > 0 || self.desk.age.is_some() || self.desk.cost_floor > 0
    }

    /// The dashboard's hints for the state it is in.
    ///
    /// A key is offered where it would do something: none that acts on a row
    /// without one, none that clears a filter without one, and the actions on
    /// marks once there are marks.
    pub fn list_hints(&self) -> (r: Vec<Hint>)
        ensures
            hints_view(r@) == list_hints_of(
                self.session_at() is Some,
                self.desk.marked.items@.len() > 0,
                self.filtered(),
            ),
    {
        let selected = self.selected_session().is_some();
        let marked = self.desk.marked.items.len() > 0;
        let filtered = self.has_filter();
        let mut v: Vec<Hint> = Vec::new();
        assert(hints_view(v@) =~= Seq::<HintView>::empty());
        put_hint(&mut v, "↑↓", "Move");
        assert(hints_view(v@) =~= seq![("↑↓"@, "Move"@)]);
        if selected {
            put_hint(&mut v, "↵", "Actions");
        }
        put_hint(&mut v, "/", "Filter");
        if marked {
            put_hint(&mut v, "D", "Delete marked");
            put_hint(&mut v, "K", "Kill marked");
            put_hint(&mut v, "U", "Unmark");
        } else {
            put_hint(&mut v, "Space", "Mark");
        }
        if filtered {
            put_hint(&mut v, "Esc", "Clear filter");
        }
        if selected {
            put_hint(&mut v, "a", "Attach");
            put_hint(&mut v, "R", "Resume");
        }
        put_hint(&mut v, "t", "New tab");
        put_hint(&mut v, "Tab", "Panel");
        put_hint(&mut v, "S", "Sort");
        put_hint(&mut v, "?", "Help");
        put_hint(&mut v, "q", "Quit");
        v
    }

    /// The badges: what is being done to the table, and anything that wants
    /// answering. `bell` is who rang.
    pub fn footer_badges(&self, bell: Option<&str>) -> (r: Line)
        ensures
            exists|down: Option<Seq<char>>, clash: Option<Seq<char>>| #[trigger]
                self.down_says(down) && #[trigger] self.conflict_says(clash) && r@ == badges(
                    self.desk,
                    maybe(bell),
                    down,
                    clash,
                ),
    {
        let down = self.remote_footer();
        let clash = self.conflict_footer();
        let ghost dv = maybe_text(down);
        let ghost cv = maybe_text(clash);
        let r = badges_of(&self.desk, bell, &down, &clash);
        assert(self.down_says(dv) && self.conflict_says(cv));
        r
    }

    /// What the corner shows.
    pub open spec fn corner_says(&self, corner: Corner) -> bool {
        match self.share_opening {
            Some(opening) => corner matches Corner::Working(label) && label@ == seq![
                frame_at(
                    if self.now >= opening.since {
                        self.now - opening.since
                    } else {
                        0
                    },
                ),
            ] + " opening a tunnel…"@,
            None => match self.serving {
                Some(serving) => match serving.public {
                    Some(url) => corner matches Corner::Link(label, to) && label@ == link_text(url@) && to@ == url@,
                    None => corner matches Corner::Button(label) && label@ == (if self.desk.share_arm {
                        "⧉ publish to the internet?"@
                    } else {
                        "⧉ + tunnel"@
                    }),
                },
                None => corner matches Corner::Button(label) && label@ == (if self.desk.share_arm {
                    "⧉ publish to the internet?"@
                } else {
                    "⧉ share"@
                }),
            },
        }
    }

    /// The corner for the state this is in.
    ///
    /// The link is the tunnel's: a loopback address is something anyone can
    /// retype. The button is armed by its first click and fires on the second,
    /// since it puts every session on this machine on the internet.
    pub fn share_corner(&self) -> (r: Corner)
        ensures
            self.corner_says(r),
    {
        match &self.share_opening {
            Some(opening) => {
                let mut s = String::new();
                let frame = opening.frame(self.now);
                s.push(frame);
                assert(s@ =~= seq![frame]);
                s.append(" opening a tunnel…");
                return Corner::Working(s);
            },
            None => {},
        }
        match &self.serving {
            Some(serving) => match &serving.public {
                Some(url) => Corner::Link(link_label(url.as_str()), url.clone()),
                None => {
                    if self.desk.share_arm {
                        Corner::Button("⧉ publish to the internet?")
                    } else {
                        Corner::Button("⧉ + tunnel")
                    }
                },
            },
            None => {
                if self.desk.share_arm {
                    Corner::Button("⧉ publish to the internet?")
                } else {
                    Corner::Button("⧉ share")
                }
            },
        }
    }

    /// A click, and whether it was on the corner.
    ///
    /// A click elsewhere takes back the arming. On the corner, the first arms and
    /// the second publishes; a link is opened; and while a tunnel is being opened
    /// a click is impatience, not a second tunnel.
    pub fn on_share_corner(&mut self, on: bool)
        ensures
            ({
                let disarmed = App { desk: Desk { share_arm: false, ..old(self).desk }, ..*old(self) };
                if !on {
                    *final(self) == disarmed
                } else if old(self).share_opening is Some {
                    *final(self) == *old(self)
                } else if old(self).serving matches Some(s) && s.public is Some {
                    &&& final(self).effects@ == old(self).effects@.push(
                        Effect::OpenLink(old(self).serving->0.public->0),
                    )
                    &&& *final(self) == (App { effects: final(self).effects, ..*old(self) })
                } else if !old(self).desk.share_arm {
                    *final(self) == (App { desk: Desk { share_arm: true, ..old(self).desk }, ..*old(self) })
                } else {
                    &&& disarmed.asked_to_serve(true, *final(self))
                    &&& (App {
                        effects: final(self).effects,
                        share_opening: Some(Opening { since: old(self).now }),
                        serve_error: None,
                        ..disarmed
                    }).said("Opening a tunnel to trycloudflare…"@, *final(self))
                }
            }),
    {
        if !on {
            self.desk.share_arm = false;
            return;
        }
        if self.share_opening.is_some() {
            return;
        }
        let link = match &self.serving {
            Some(s) => match &s.public {
                Some(url) => Some(url.clone()),
                None => None,
            },
            None => None,
        };
        match link {
            Some(url) => {
                self.ask(Effect::OpenLink(url));
            },
            None => {
                if self.desk.share_arm {
                    self.desk.share_arm = false;
                    self.start_serving(true);
                } else {
                    self.desk.share_arm = true;
                }
            },
        }
    }

    /// The footer's line, and where its keys can be clicked: a message where there
    /// is one, and otherwise the hints and the badges.
    ///
    /// The hints are buttons only while the dashboard is what the keys act on: one
    /// clicked under a modal would be typed into that modal.
    pub fn footer_line(&self, area: Rect, bell: Option<&str>) -> (r: (Line, Vec<(u16, u16, u16, Key)>))
        requires
            area.x + area.width <= u16::MAX,
        ensures
            match self.status {
                Some((text, _)) => r.0@ == blank().with(text@, Ink::Low) && r.1@.len() == 0,
                None => exists|down: Option<Seq<char>>, clash: Option<Seq<char>>|
                    {
                        let hints = if self.tab > 0 {
                            tab_hints_list()
                        } else {
                            list_hints_of(
                                self.session_at() is Some,
                                self.desk.marked.items@.len() > 0,
                                self.filtered(),
                            )
                        };
                        let tags = if self.tab > 0 {
                            blank()
                        } else {
                            badges(self.desk, maybe(bell), down, clash)
                        };
                        let room = hint_room(hints, area.width as int, tags.words().len() as int);
                        let n = fitting(hints, room, 0);
                        &&& #[trigger] self.down_says(down)
                        &&& #[trigger] self.conflict_says(clash)
                        &&& r.0@ == hint_line(hints, n).then_line(tags)
                        &&& r.1@ == (if self.mode == Mode::List {
                            hint_hits(hints, area.x as int, area.y, n)
                        } else {
                            Seq::empty()
                        })
                    },
            },
    {
        let no_hits: Vec<(u16, u16, u16, Key)> = Vec::new();
        match &self.status {
            Some((text, _)) => {
                return (line_of(text.as_str(), Ink::Low), no_hits);
            },
            None => {},
        }
        let down = self.remote_footer();
        let clash = self.conflict_footer();
        let ghost dv = maybe_text(down);
        let ghost cv = maybe_text(clash);
        assert(self.down_says(dv) && self.conflict_says(cv));
        let hints = if self.tab > 0 {
            tab_hints()
        } else {
            self.list_hints()
        };
        let mut tags = if self.tab > 0 {
            Line::new()
        } else {
            badges_of(&self.desk, bell, &down, &clash)
        };
        let taken: usize = count(tags.words().as_str());
        let room: usize = hint_room_of(&hints, area.width as usize, taken);
        if self.mode == Mode::List {
            let (mut l, hits) = fit_hints_at(&hints, room, area.x, area.y);
            l.append(&mut tags);
            (l, hits)
        } else {
            let mut l = fit_hints(&hints, room);
            l.append(&mut tags);
            assert(no_hits@ =~= Seq::<(u16, u16, u16, Key)>::empty());
            (l, no_hits)
        }
    }
}

fn badges_of(desk: &Desk, bell: Option<&str>, down: &Option<String>, clash: &Option<String>) -> (r: Line)
    ensures
        r@ == badges(*desk, maybe(bell), maybe_text(*down), maybe_text(*clash)),
{
    let mut l = Line::new();
    if desk.quit_arm {
        l.put(" click q again to quit ", Ink::High);
    }
    match &desk.age {
        Some(age) => {
            let mut s = cat(" Age<", age.as_str());
            s.append(" ");
            l.put(s.as_str(), Ink::PanelTitle);
        },
        None => {},
    }
    if count(desk.search.as_str()) > 0 {
        let mut s = cat(" Filter: ", desk.search.as_str());
        if !desk.search_content {
            s.append("");
        } else if desk.scanning {
            s.append(" +transcripts…");
        } else {
            let mut t = cat(" +transcripts(", decimal(desk.scan_hits as u128).as_str());
            t.append(")");
            s.append(t.as_str());
        }
        s.append(" ");
        l.put(s.as_str(), Ink::Filter);
    }
    if desk.cost_floor > 0 {
        let mut s = cat(" ≥", compact_usd(desk.cost_floor as u128).as_str());
        s.append(" ");
        l.put(s.as_str(), Ink::High);
    }
    let n: usize = desk.marked.items.len();
    if n > 0 {
        let mut s = cat(" [", decimal(n as u128).as_str());
        s.append(" marked] ");
        l.put_bold(s.as_str(), Ink::Accent);
    }
    if desk.follow {
        l.put(" FOLLOW ", Ink::Mid);
    }
    match bell {
        Some(b) => {
            let mut s = cat(" ", b);
            s.append(" ");
            l.put_bold(s.as_str(), Ink::Accent);
        },
        None => {},
    }
    match down {
        Some(d) => {
            let mut s = cat(" ⚠ ", d.as_str());
            s.append(" ");
            l.put(s.as_str(), Ink::Mid);
        },
        None => {},
    }
    match clash {
        Some(c) => {
            let mut s = cat(" ", c.as_str());
            s.append(" ");
            l.put_bold(s.as_str(), Ink::High);
        },
        None => {},
    }
    match &desk.update_available {
        Some(v) => {
            let mut s = cat(" v", v.as_str());
            s.append(" available — cctop --update ");
            l.put_bold(s.as_str(), Ink::Mid);
        },
        None => {},
    }
    l
}

proof fn a_line_of_hints_is_as_wide(hints: Seq<HintView>, n: int)
    requires
        0 <= n <= hints.len(),
    ensures
        hint_line(hints, n).words().len() == hints_width(hints, n),
        hint_line(hints, n).spans.len() == 2 * n,
    decreases n,
{
    if n > 0 {
        a_line_of_hints_is_as_wide(hints, n - 1);
        let before = hint_line(hints, n - 1);
        let mid = before.with(hints[n - 1].0, Ink::KeyCap);
        let all = hint_line(hints, n);
        reveal_strlit(" ");
        assert(mid.spans.drop_last() =~= before.spans);
        assert(all.spans.drop_last() =~= mid.spans);
        assert(crate::styled::words_of(mid.spans) == crate::styled::words_of(before.spans) + hints[n - 1].0);
        assert(crate::styled::words_of(all.spans) == crate::styled::words_of(mid.spans) + (" "@ + hints[n - 1].1 + " "@));
    } else {
        assert(hint_line(hints, n) == blank());
        assert(crate::styled::words_of(blank().spans).len() == 0);
    }
}

proof fn a_hint_keeps_its_place(hints: Seq<HintView>, n: int, i: int)
    requires
        0 <= i < n <= hints.len(),
    ensures
        hint_line(hints, n).spans.len() == 2 * n,
        hint_line(hints, n).spans[2 * i].text == hints[i].0,
        hint_line(hints, n).spans[2 * i + 1].text == " "@ + hints[i].1 + " "@,
    decreases n,
{
    a_line_of_hints_is_as_wide(hints, n - 1);
    if i < n - 1 {
        a_hint_keeps_its_place(hints, n - 1, i);
    }
}

proof fn a_hit_stays(hints: Seq<HintView>, x: int, row: u16, n: int, i: int)
    requires
        0 <= i < n <= hints.len(),
        hint_key(hints[i].0) is Some,
    ensures
        hint_hits(hints, x, row, n).contains(
            (row, (x + hints_width(hints, i)) as u16, (x + hints_width(hints, i + 1)) as u16, hint_key(hints[i].0)->0),
        ),
    decreases n,
{
    let all = hint_hits(hints, x, row, n);
    let one = (row, (x + hints_width(hints, i)) as u16, (x + hints_width(hints, i + 1)) as u16, hint_key(hints[i].0)->0);
    if i < n - 1 {
        a_hit_stays(hints, x, row, n - 1, i);
        let before = hint_hits(hints, x, row, n - 1);
        let k = choose|k: int| 0 <= k < before.len() && before[k] == one;
        assert(all[k] == one);
    } else {
        assert(all[all.len() - 1] == one);
    }
}

/// A hint is drawn with its own key before its own name, and the cells it is drawn in
/// are those that can be clicked for that key.
pub proof fn a_hint_is_clicked_where_it_is_drawn(hints: Seq<HintView>, x: int, row: u16, n: int, i: int)
    requires
        0 <= i < n <= hints.len(),
    ensures
        hint_line(hints, n).spans[2 * i].text == hints[i].0,
        hint_line(hints, n).spans[2 * i + 1].text == " "@ + hints[i].1 + " "@,
        hint_key(hints[i].0) matches Some(key) ==> hint_hits(hints, x, row, n).contains(
            (
                row,
                (x + hint_line(hints, i).words().len()) as u16,
                (x + hint_line(hints, i + 1).words().len()) as u16,
                key,
            ),
        ),
{
    a_hint_keeps_its_place(hints, n, i);
    a_line_of_hints_is_as_wide(hints, i);
    a_line_of_hints_is_as_wide(hints, i + 1);
    if hint_key(hints[i].0) is Some {
        a_hit_stays(hints, x, row, n, i);
    }
}

/// A hint of one character is that key, and one of `Alt+` and a character that key
/// with alt held.
pub proof fn a_hint_stands_for_its_key(c: char)
    requires
        c != '↵',
    ensures
        hint_key(seq![c]) == Some(Key::plain(KeyCode::Char(c))),
        hint_key("Alt+"@ + seq![c]) == Some(Key { code: KeyCode::Char(c), ctrl: false, alt: true, shift: false }),
{
    reveal_strlit("↑↓");
    reveal_strlit("Alt+←→");
    reveal_strlit("Alt+v/s");
    reveal_strlit("↵");
    reveal_strlit("Esc");
    reveal_strlit("Tab");
    reveal_strlit("Space");
    reveal_strlit("F1");
    reveal_strlit("F9");
    reveal_strlit("F10");
    reveal_strlit("F12");
    reveal_strlit("Alt+");
    let one = seq![c];
    assert(one.len() == 1 && one[0] == c);
    assert("↵"@[0] == '↵');
    let two = "Alt+"@ + seq![c];
    assert(two.len() == 5);
    assert(two.take(4) =~= "Alt+"@);
    assert(two.last() == c);
    assert("Space"@[0] == 'S' && two[0] == 'A');
}

/// The table offers what can be done with it: the row's own actions where a row is
/// selected, those of the marked rows where any is, and clearing a filter where there
/// is one.
pub proof fn the_table_offers_what_can_be_done(selected: bool, marked: bool, filtered: bool)
    ensures
        ({
            let v = list_hints_of(selected, marked, filtered);
            &&& selected ==> v.contains(("↵"@, "Actions"@)) && v.contains(("a"@, "Attach"@)) && v.contains(
                ("R"@, "Resume"@),
            )
            &&& marked ==> v.contains(("D"@, "Delete marked"@)) && v.contains(("K"@, "Kill marked"@)) && v.contains(
                ("U"@, "Unmark"@),
            )
            &&& !marked ==> v.contains(("Space"@, "Mark"@))
            &&& filtered ==> v.contains(("Esc"@, "Clear filter"@))
            &&& v.contains(("/"@, "Filter"@)) && v.contains(("t"@, "New tab"@)) && v.contains(("q"@, "Quit"@))
            &&& v.len() == 7 + (if selected {
                3int
            } else {
                0
            }) + (if marked {
                3int
            } else {
                1
            }) + (if filtered {
                1int
            } else {
                0
            })
        }),
{
    broadcast use vstd::seq_lib::group_seq_properties;

}

proof fn a_host_ends(host: Seq<char>, rest: Seq<char>, i: int)
    requires
        0 <= i <= host.len(),
        forall|k: int| 0 <= k < host.len() ==> #[trigger] host[k] != '/' && host[k] != '?',
        rest.len() > 0 ==> rest[0] == '/' || rest[0] == '?',
    ensures
        host_end(host + rest, i) == host.len(),
    decreases host.len() - i,
{
    let all = host + rest;
    if i < host.len() {
        assert(all[i] == host[i]);
        a_host_ends(host, rest, i + 1);
    } else if rest.len() > 0 {
        assert(all[i] == rest[0]);
    }
}

proof fn a_scheme_ends(scheme: Seq<char>, rest: Seq<char>, i: int)
    requires
        0 <= i <= scheme.len(),
        forall|k: int| 0 <= k < scheme.len() ==> #[trigger] scheme[k] != ':',
    ensures
        scheme_end(scheme + "://"@ + rest, i) == scheme.len(),
    decreases scheme.len() - i,
{
    reveal_strlit("://");
    let all = scheme + "://"@ + rest;
    if i < scheme.len() {
        assert(all[i] == scheme[i]);
        a_scheme_ends(scheme, rest, i + 1);
    } else {
        assert(all[i] == ':' && all[i + 1] == '/' && all[i + 2] == '/');
    }
}

/// The host of a link is what stands between its scheme and its path or query.
pub proof fn the_host_is_between_scheme_and_path(scheme: Seq<char>, host: Seq<char>, rest: Seq<char>)
    requires
        forall|k: int| 0 <= k < scheme.len() ==> #[trigger] scheme[k] != ':',
        forall|k: int| 0 <= k < host.len() ==> #[trigger] host[k] != '/' && host[k] != '?',
        rest.len() > 0 ==> rest[0] == '/' || rest[0] == '?',
    ensures
        host_of(scheme + "://"@ + host + rest) == host,
        host.len() <= LINK_MAX ==> link_text(scheme + "://"@ + host + rest) == "⧉ "@ + host,
{
    reveal_strlit("://");
    let url = scheme + "://"@ + host + rest;
    let tail = host + rest;
    assert(url =~= scheme + "://"@ + tail);
    a_scheme_ends(scheme, tail, 0);
    assert(url.skip(scheme.len() as int + 3) =~= tail);
    a_host_ends(host, rest, 0);
    assert(tail.take(host.len() as int) =~= host);
}

/// A long host keeps how it begins and how it ends.
pub proof fn a_long_host_keeps_both_ends(host: Seq<char>)
    requires
        host.len() > LINK_MAX,
    ensures
        short_host(host).len() == LINK_MAX,
        short_host(host).take(12) == host.take(12),
        short_host(host).skip(LINK_MAX - 15) == host.skip(host.len() - 15),
        ends(host, "trycloudflare.com"@) ==> ends(short_host(host), "trycloudflare.com"@),
{
    reveal_strlit("…");
    reveal_strlit("trycloudflare.com");
    let s = short_host(host);
    let n = "trycloudflare.com"@.len() as int;
    assert(n == 17);
    assert(s.take(12) =~= host.take(12));
    assert(s.skip(LINK_MAX - 15) =~= host.skip(host.len() - 15));
    if ends(host, "trycloudflare.com"@) {
        assert(s.skip(s.len() - n) =~= host.skip(host.len() - n));
    }
}

/// Nothing but the characters that control a terminal is taken out of a link, and they
/// all are.
pub proof fn only_controls_are_taken_out(s: Seq<char>)
    ensures
        uncontrolled(s) == s.filter(|c: char| !(c <= '\u{1f}' || '\u{7f}' <= c <= '\u{9f}')),
    decreases s.len(),
{
    reveal(Seq::filter);
    if s.len() > 0 {
        only_controls_are_taken_out(s.drop_last());
    }
}

/// Each badge is there where what it is of holds, and says it.
pub proof fn a_badge_says_what_holds(desk: Desk, bell: Option<Seq<char>>, down: Option<Seq<char>>, clash: Option<Seq<char>>)
    ensures
        ({
            let spans = badges(desk, bell, down, clash).spans;
            let plain = |text: Seq<char>, ink: Ink| SpanView { text, ink, bold: false };
            let bold = |text: Seq<char>, ink: Ink| SpanView { text, ink, bold: true };
            &&& desk.quit_arm ==> spans.contains(plain(" click q again to quit "@, Ink::High))
            &&& desk.age matches Some(age) ==> spans.contains(plain(" Age<"@ + age@ + " "@, Ink::PanelTitle))
            &&& desk.search@.len() > 0 ==> spans.contains(
                plain(" Filter: "@ + desk.search@ + scope_text(desk) + " "@, Ink::Filter),
            )
            &&& desk.cost_floor > 0 ==> spans.contains(plain(" ≥"@ + usd_text(desk.cost_floor as nat) + " "@, Ink::High))
            &&& desk.marked.items@.len() > 0 ==> spans.contains(
                bold(" ["@ + dec(desk.marked.items@.len()) + " marked] "@, Ink::Accent),
            )
            &&& desk.follow ==> spans.contains(plain(" FOLLOW "@, Ink::Mid))
            &&& bell matches Some(b) ==> spans.contains(bold(" "@ + b + " "@, Ink::Accent))
            &&& down matches Some(d) ==> spans.contains(plain(" ⚠ "@ + d + " "@, Ink::Mid))
            &&& clash matches Some(c) ==> spans.contains(bold(" "@ + c + " "@, Ink::High))
            &&& desk.update_available matches Some(v) ==> spans.contains(
                bold(" v"@ + v@ + " available — cctop --update "@, Ink::Mid),
            )
        }),
{
    broadcast use vstd::seq_lib::group_seq_properties;

}

/// Where nothing is filtered, marked, followed, armed or wrong, there is no badge.
pub proof fn nothing_to_say_is_no_badge(desk: Desk)
    requires
        !desk.quit_arm,
        desk.age is None,
        desk.search@.len() == 0,
        desk.cost_floor == 0,
        desk.marked.items@.len() == 0,
        !desk.follow,
        desk.update_available is None,
    ensures
        badges(desk, None, None, None) == blank(),
{
}

/// The hints get what the badges leave of the row, and where that is too little still
/// what the first three of them need, as far as the row has it.
pub proof fn the_first_hints_keep_their_room(hints: Seq<HintView>, total: int, badges: int)
    requires
        0 <= badges,
        0 <= total,
    ensures
        hint_room(hints, total, badges) <= total,
        hint_room(hints, total, badges) >= total - badges,
        hints.len() >= 3 && hints_width(hints, 3) <= total ==> hint_room(hints, total, badges) >= hints_width(hints, 3),
        hints.len() >= 3 && hints_width(hints, 3) <= total - badges ==> hint_room(hints, total, badges) == total - badges,
{
    widths_are_not_negative(hints, if hints.len() < 3 {
        hints.len() as int
    } else {
        3
    });
}

proof fn widths_are_not_negative(hints: Seq<HintView>, n: int)
    ensures
        hints_width(hints, n) >= 0,
    decreases n,
{
    if n > 0 {
        widths_are_not_negative(hints, n - 1);
    }
}

/// The corner leads to the page where there is a public one, and offers to make one
/// where there is none; while one is being made it can be seen to.
pub proof fn the_corner_leads_to_the_page(app: App, corner: Corner)
    requires
        app.corner_says(corner),
    ensures
        app.share_opening is Some ==> corner is Working,
        app.share_opening is None && app.serving is Some && app.serving->0.public is Some ==> {
            corner matches Corner::Link(label, to) && to@ == app.serving->0.public->0@
        },
        app.share_opening is None && (app.serving is None || app.serving->0.public is None) ==> {
            corner matches Corner::Button(label) && (app.desk.share_arm ==> label@ == "⧉ publish to the internet?"@)
        },
{
}

} // verus!
