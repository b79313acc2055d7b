//! ↑ ↑ ↓ ↓ ← → ← → b a, anywhere. The same again to go home.
//!
//! Or type `ultracode` into a session that is being watched: the party starts
//! itself. Only a prompt newer than the last one heard starts it, and never one
//! from before the dashboard was started.

use vstd::prelude::*;

use crate::app::{App, Effect};
use crate::geometry::Rect;
use crate::keyboard::{Key, KeyCode};
use crate::model::{Provider, Session};
use crate::outside::{moment, moment_of};
use crate::sound::STATION;
use crate::text::{cat, count};

verus! {

/// The code, as the keys it is typed with.
pub open spec fn the_code() -> Seq<KeyCode> {
    seq![
        KeyCode::Up,
        KeyCode::Up,
        KeyCode::Down,
        KeyCode::Down,
        KeyCode::Left,
        KeyCode::Right,
        KeyCode::Left,
        KeyCode::Right,
        KeyCode::Char('b'),
        KeyCode::Char('a'),
    ]
}

/// Key `i` of the code.
pub fn code_key(i: usize) -> (r: KeyCode)
    requires
        i < 10,
    ensures
        r == the_code()[i as int],
{
    match i {
        0 => KeyCode::Up,
        1 => KeyCode::Up,
        2 => KeyCode::Down,
        3 => KeyCode::Down,
        4 => KeyCode::Left,
        5 => KeyCode::Right,
        6 => KeyCode::Left,
        7 => KeyCode::Right,
        8 => KeyCode::Char('b'),
        _ => KeyCode::Char('a'),
    }
}

/// How far along the code the keyboard is, and when the party started.
#[derive(Debug, Clone, Copy)]
pub struct Rave {
    pub heard: usize,
    pub since: Option<u64>,
    /// The newest `ultracode` prompt already answered, so that one prompt starts
    /// one party.
    pub ultracode_heard: Option<(i64, u32)>,
}

/// What a key was to the code.
#[derive(Debug, Clone, Copy, PartialEq, Eq, Structural)]
pub enum Heard {
    /// Nothing to do with it: the key does what it always does.
    Pass,
    /// Part of the code and not harmless alone, so kept from whatever else would
    /// have taken it. The arrows pass: they only move.
    Swallow,
    /// The code is complete: the party starts, or ends.
    Toggle,
}

/// How far along the code the keyboard is after `code`, having been at `heard`.
pub open spec fn along(heard: int, code: KeyCode) -> int {
    if code == the_code()[heard] {
        heard + 1
    } else if code == KeyCode::Up {
        // The only overlap the code has with itself is its opening run of ups:
        // a third up after two is still two ups in, not one.
        if heard == 2 {
            2
        } else {
            1
        }
    } else {
        0
    }
}

impl Rave {
    /// A keyboard nobody has touched, and no party.
    pub fn new() -> (r: Rave)
        ensures
            r == (Rave { heard: 0, since: None, ultracode_heard: None }),
    {
        Rave { heard: 0, since: None, ultracode_heard: None }
    }

    /// Whether the place in the code is one.
    pub open spec fn wf(&self) -> bool {
        self.heard < 10
    }

    /// Take one key at the moment `now`, returning what it is to the code.
    pub fn hear(&mut self, code: KeyCode, now: u64) -> (r: Heard)
        requires
            old(self).wf(),
        ensures
            final(self).wf(),
            ({
                let n = along(old(self).heard as int, code);
                let done = n == 10;
                &&& *final(self) == (Rave {
                    heard: (if done {
                        0
                    } else {
                        n
                    }) as usize,
                    since: if !done {
                        old(self).since
                    } else if old(self).since is Some {
                        None
                    } else {
                        Some(now)
                    },
                    ..*old(self)
                })
                &&& r == (if done {
                    Heard::Toggle
                } else if n == 9 {
                    Heard::Swallow
                } else {
                    Heard::Pass
                })
            }),
    {
        if code != code_key(self.heard) {
            self.heard = match code {
                KeyCode::Up => {
                    if self.heard == 2 {
                        2
                    } else {
                        1
                    }
                },
                _ => 0,
            };
            return Heard::Pass;
        }
        self.heard = self.heard + 1;
        if self.heard == 10 {
            self.heard = 0;
            self.since = match self.since {
                Some(_) => None,
                None => Some(now),
            };
            Heard::Toggle
        } else if self.heard > 8 {
            Heard::Swallow
        } else {
            Heard::Pass
        }
    }

    /// How long the party has been going at the moment `now`, while it is.
    pub fn elapsed(&self, now: u64) -> (r: Option<u64>)
        ensures
            r == (match self.since {
                Some(at) => Some((if now >= at {
                    now - at
                } else {
                    0
                }) as u64),
                None => None,
            }),
    {
        match self.since {
            Some(at) => Some(now.saturating_sub(at)),
            None => None,
        }
    }
}

/// Whether the last `k` keys typed are the first `k` of the code.
pub open spec fn typed(keys: Seq<KeyCode>, k: int) -> bool {
    k <= keys.len() && keys.skip(keys.len() - k) == the_code().take(k)
}

/// Whether `heard` is the most of the code that the last keys typed are, short
/// of all of it.
pub open spec fn is_most(keys: Seq<KeyCode>, heard: int) -> bool {
    &&& 0 <= heard < 10
    &&& typed(keys, heard)
    &&& forall|k: int| heard < k < 10 ==> !typed(keys, k)
}

proof fn typed_step(keys: Seq<KeyCode>, code: KeyCode, k: int)
    requires
        0 <= k < 10,
    ensures
        typed(keys.push(code), k + 1) <==> typed(keys, k) && code == the_code()[k],
{
    let now = keys.push(code);
    if typed(now, k + 1) {
        let a = now.skip(now.len() - (k + 1));
        assert(a == the_code().take(k + 1));
        assert(a[k] == code);
        assert(keys.skip(keys.len() - k) =~= a.take(k));
        assert(the_code().take(k + 1).take(k) =~= the_code().take(k));
    }
    if typed(keys, k) && code == the_code()[k] {
        let a = keys.skip(keys.len() - k);
        assert(now.skip(now.len() - (k + 1)) =~= a.push(code));
        assert(the_code().take(k + 1) =~= the_code().take(k).push(the_code()[k]));
    }
}

/// The only overlaps the code has with itself are its opening ups.
proof fn overlap(keys: Seq<KeyCode>, h: int, m: int)
    requires
        typed(keys, h),
        typed(keys, m),
        0 < m < h < 10,
    ensures
        h == 2 && m == 1,
{
    let a = keys.skip(keys.len() - h);
    let b = keys.skip(keys.len() - m);
    assert(b =~= a.skip(h - m));
    assert(a == the_code().take(h));
    assert(b == the_code().take(m));
    // The first of the last `m` keys is an up, and the code has ups only at its
    // first two places.
    assert(b[0] == the_code()[0]);
    assert(a[h - m] == the_code()[h - m]);
    assert(h - m == 1);
    if m >= 2 {
        assert(b[1] == the_code()[1]);
        assert(a[2] == the_code()[2]);
    }
}

/// A slip never loses more of the code than it has to: the place in the code is
/// the most of it that the last keys typed are.
pub proof fn the_place_is_the_most_typed(keys: Seq<KeyCode>, heard: int, code: KeyCode)
    requires
        is_most(keys, heard),
    ensures
        along(heard, code) < 10 ==> is_most(keys.push(code), along(heard, code)),
        along(heard, code) == 10 <==> typed(keys.push(code), 10),
{
    let now = keys.push(code);
    let to = along(heard, code);
    typed_step(keys, code, heard);
    if code == the_code()[heard] {
        assert forall|k: int| to < k < 10 implies !typed(now, k) by {
            typed_step(keys, code, k - 1);
        }
        if heard != 9 {
            typed_step(keys, code, 9);
        }
    } else {
        // The keys typed are no more of the code than what they were, and one.
        assert forall|k: int| 1 <= k <= 10 && typed(now, k) implies k - 1 == 0 || (heard == 2 && k == 2) by {
            typed_step(keys, code, k - 1);
            if k - 1 > 0 && k - 1 < heard {
                overlap(keys, heard, k - 1);
            }
        }
        assert(keys.skip(keys.len() as int) =~= the_code().take(0));
        assert(typed(keys, 0));
        typed_step(keys, code, 0);
        if heard == 2 {
            // Two ups typed, so one up typed.
            let a = keys.skip(keys.len() - 2);
            assert(a == the_code().take(2));
            assert(a[1] == the_code()[1]);
            assert(keys.skip(keys.len() - 1) =~= the_code().take(1));
            assert(typed(keys, 1));
            typed_step(keys, code, 1);
        }
        assert(now.skip(now.len() as int) =~= the_code().take(0));
        assert(typed(now, 0));
    }
}

/// Whether the moment `a` is after `b`.
pub open spec fn later(a: (i64, u32), b: (i64, u32)) -> bool {
    a.0 > b.0 || (a.0 == b.0 && a.1 > b.1)
}

/// The moment a session was last asked for `ultracode`, where its agent is one
/// that is listened to.
pub open spec fn asked_at(s: Session) -> Option<(i64, u32)> {
    if (s.provider == Provider::Claude || s.provider == Provider::Codex) && s.ultracode_at is Some {
        moment(s.ultracode_at->0@)
    } else {
        None
    }
}

/// The last moment any of the first `n` sessions was asked for `ultracode`.
pub open spec fn newest(sessions: Seq<Session>, n: int) -> Option<(i64, u32)>
    decreases n,
{
    if n <= 0 {
        None
    } else {
        match (newest(sessions, n - 1), asked_at(sessions[n - 1])) {
            (None, b) => b,
            (a, None) => a,
            (Some(a), Some(b)) => if later(b, a) {
                Some(b)
            } else {
                Some(a)
            },
        }
    }
}

impl App {
    /// What starting the party for `why` leaves of a state.
    pub open spec fn partying(&self, why: Seq<char>, after: App) -> bool {
        if self.no_color {
            (App { rave: Rave { since: None, ..self.rave }, ..*self }).said("No colour, no party"@, after)
        } else {
            let lit = Rave {
                since: if self.rave.since is Some {
                    self.rave.since
                } else {
                    Some(self.now)
                },
                ..self.rave
            };
            &&& after.effects@ == self.effects@.push(Effect::PlayMusic)
            &&& (App { rave: lit, effects: after.effects, ..*self }).said(
                "♫ "@ + why + ": rave mode, with "@ + STATION@ + " if you are online. ↑↑↓↓←→←→ba to go home"@,
                after,
            )
        }
    }

    fn start_rave(&mut self, why: &str)
        ensures
            old(self).partying(why@, *final(self)),
    {
        if self.no_color {
            self.rave.since = None;
            self.set_status("No colour, no party".to_owned());
            return;
        }
        if self.rave.since.is_none() {
            self.rave.since = Some(self.now);
        }
        self.ask(Effect::PlayMusic);
        let mut s = cat("♫ ", why);
        s.append(": rave mode, with ");
        s.append(STATION);
        s.append(" if you are online. ↑↑↓↓←→←→ba to go home");
        self.set_status(s);
    }

    /// Feed a key to the code, `true` when it was the code's to keep.
    ///
    /// A key with anything held down is no key of the code.
    pub fn hear_rave(&mut self, key: Key) -> (r: bool)
        requires
            old(self).rave.wf(),
        ensures
            final(self).rave.wf(),
            ({
                let code = if key.ctrl || key.alt || key.shift {
                    KeyCode::Null
                } else {
                    key.code
                };
                let n = along(old(self).rave.heard as int, code);
                if n == 10 {
                    let lit = Rave {
                        heard: 0,
                        since: if old(self).rave.since is Some {
                            None
                        } else {
                            Some(old(self).now)
                        },
                        ..old(self).rave
                    };
                    &&& r
                    &&& if lit.since is Some {
                        (App { rave: lit, ..*old(self) }).partying("↑↑↓↓←→←→ba"@, *final(self))
                    } else {
                        &&& final(self).effects@ == old(self).effects@.push(Effect::StopMusic)
                        &&& (App { rave: lit, effects: final(self).effects, ..*old(self) }).said(
                            "Lights up. Back to work"@,
                            *final(self),
                        )
                    }
                } else {
                    &&& r == (n == 9)
                    &&& *final(self) == (App { rave: Rave { heard: n as usize, ..old(self).rave }, ..*old(self) })
                }
            }),
    {
        let code = if key.bare() {
            key.code
        } else {
            KeyCode::Null
        };
        match self.rave.hear(code, self.now) {
            Heard::Pass => false,
            Heard::Swallow => true,
            Heard::Toggle => {
                if self.rave.since.is_some() {
                    self.start_rave("↑↑↓↓←→←→ba");
                } else {
                    self.ask(Effect::StopMusic);
                    self.set_status("Lights up. Back to work".to_owned());
                }
                true
            },
        }
    }

    /// Start the party when a session has been asked for `ultracode` since the
    /// last time one was.
    ///
    /// A party already going is left alone: the word asks for the lights, it does
    /// not switch them off.
    pub fn hear_ultracode(&mut self)
        ensures
            ({
                let since = if old(self).rave.ultracode_heard is Some {
                    old(self).rave.ultracode_heard
                } else {
                    moment(old(self).started_at@)
                };
                match newest(old(self).sessions@, old(self).sessions@.len() as int) {
                    None => *final(self) == *old(self),
                    Some(at) => if since is Some && !later(at, since->0) {
                        *final(self) == *old(self)
                    } else {
                        let told = App { rave: Rave { ultracode_heard: Some(at), ..old(self).rave }, ..*old(self) };
                        if old(self).rave.since is Some {
                            *final(self) == told
                        } else {
                            told.partying("ultracode"@, *final(self))
                        }
                    },
                }
            }),
    {
        let mut at: Option<(i64, u32)> = None;
        let mut i: usize = 0;
        while i < self.sessions.len()
            invariant
                i <= self.sessions@.len(),
                *self == *old(self),
                at == newest(self.sessions@, i as int),
            decreases self.sessions@.len() - i,
        {
            let listened = match self.sessions[i].provider {
                Provider::Claude => true,
                Provider::Codex => true,
                _ => false,
            };
            let one: Option<(i64, u32)> = match &self.sessions[i].ultracode_at {
                Some(ts) => if listened {
                    moment_of(ts.as_str())
                } else {
                    None
                },
                None => None,
            };
            at = match (at, one) {
                (None, b) => b,
                (a, None) => a,
                (Some(a), Some(b)) => if b.0 > a.0 || (b.0 == a.0 && b.1 > a.1) {
                    Some(b)
                } else {
                    Some(a)
                },
            };
            i += 1;
        }
        let newest = match at {
            Some(m) => m,
            None => {
                return;
            },
        };
        let since = match self.rave.ultracode_heard {
            Some(m) => Some(m),
            None => moment_of(self.started_at.as_str()),
        };
        match since {
            Some(s) => {
                if !(newest.0 > s.0 || (newest.0 == s.0 && newest.1 > s.1)) {
                    return;
                }
            },
            None => {},
        }
        self.rave.ultracode_heard = Some(newest);
        if self.rave.since.is_none() {
            self.start_rave("ultracode");
        }
    }

    /// Whether the screen is dancing.
    pub fn raving(&self) -> (r: bool)
        ensures
            r == (self.rave.since is Some),
    {
        self.rave.since.is_some()
    }
}

/// A well-mixed number from a cell and a moment, so that the glints land
/// somewhere new every half-beat without anything being remembered.
pub open spec fn scattered(x: u32, y: u32, tick: u32) -> u32 {
    let h = ((x * 0x9E37_79B1) % 0x1_0000_0000) as u32 ^ ((y * 0x85EB_CA77) % 0x1_0000_0000) as u32 ^ ((tick
        * 0xC2B2_AE3D) % 0x1_0000_0000) as u32;
    let h = h ^ (h >> 15);
    let h = ((h * 0x2C1B_3C6D) % 0x1_0000_0000) as u32;
    h ^ (h >> 12)
}

/// A well-mixed number from a cell and a moment.
pub fn scatter(x: u32, y: u32, tick: u32) -> (r: u32)
    ensures
        r == scattered(x, y, tick),
{
    let mut h: u32 = x.wrapping_mul(0x9E37_79B1) ^ y.wrapping_mul(0x85EB_CA77) ^ tick.wrapping_mul(0xC2B2_AE3D);
    h = h ^ (h >> 15);
    h = h.wrapping_mul(0x2C1B_3C6D);
    h ^ (h >> 12)
}

/// Whether the mirror ball throws light on column `x` of row `y`, counted from
/// the corner of a floor `width` wide whose blank cells are `open`.
///
/// Only on open ground: a blank cell with blanks either side, so that a glint
/// never lands between two words and reads as punctuation.
pub open spec fn glint_at(open: Seq<bool>, area: Rect, tick: u32, x: int, y: int) -> bool {
    &&& 1 <= x < area.width - 1
    &&& scattered((area.x + x) as u32, (area.y + y) as u32, tick) % 1000 < 6
    &&& open[y * area.width + x - 1]
    &&& open[y * area.width + x]
    &&& open[y * area.width + x + 1]
}

/// The glyphs the mirror ball throws.
pub const GLINTS: [&'static str; 4] = ["✦", "✧", "·", "*"];

/// The glints on the first `n` cells of a floor, cell by cell.
pub open spec fn glints_upto(open: Seq<bool>, area: Rect, tick: u32, n: int) -> Seq<(u16, u16, usize)>
    decreases n,
{
    if n <= 0 {
        Seq::empty()
    } else {
        let before = glints_upto(open, area, tick, n - 1);
        let x = (n - 1) % (area.width as int);
        let y = (n - 1) / (area.width as int);
        if glint_at(open, area, tick, x, y) {
            before.push(
                (
                    (area.x + x) as u16,
                    (area.y + y) as u16,
                    ((scattered((area.x + x) as u32, (area.y + y) as u32, tick) / 1000) % 4) as usize,
                ),
            )
        } else {
            before
        }
    }
}

/// Where the mirror ball throws its light this half-beat, and which of
/// [`GLINTS`].
pub fn glints(open: &Vec<bool>, area: Rect, tick: u32) -> (r: Vec<(u16, u16, usize)>)
    requires
        area.x + area.width <= u16::MAX,
        area.y + area.height <= u16::MAX,
        open@.len() == area.width * area.height,
    ensures
        r@ == glints_upto(open@, area, tick, area.width * area.height),
{
    let mut out: Vec<(u16, u16, usize)> = Vec::new();
    let mut y: u16 = 0;
    let ghost w = area.width as int;
    while y < area.height
        invariant
            y <= area.height,
            w == area.width,
            area.x + area.width <= u16::MAX,
            area.y + area.height <= u16::MAX,
            open@.len() == area.width * area.height,
            out@ == glints_upto(open@, area, tick, w * y),
        decreases area.height - y,
    {
        let mut x: u16 = 0;
        while x < area.width
            invariant
                x <= area.width,
                y < area.height,
                w == area.width,
                area.x + area.width <= u16::MAX,
                area.y + area.height <= u16::MAX,
                open@.len() == area.width * area.height,
                out@ == glints_upto(open@, area, tick, w * y + x),
            decreases area.width - x,
        {
            proof {
                assert(w * y == y * w) by (nonlinear_arith);
                vstd::arithmetic::div_mod::lemma_fundamental_div_mod_converse(w * y + x, w, y as int, x as int);
                assert(w * y + w == w * (y + 1)) by (nonlinear_arith);
                assert(w * (y + 1) <= w * area.height) by (nonlinear_arith)
                    requires
                        y < area.height,
                        w >= 0,
                ;
                assert(w * area.height <= 65535 * 65535) by (nonlinear_arith)
                    requires
                        0 <= w <= 65535,
                        area.height <= 65535,
                ;
            }
            if x >= 1 && x < area.width - 1 {
                let roll: u32 = scatter((area.x + x) as u32, (area.y + y) as u32, tick);
                let at: usize = (y as u32 * area.width as u32 + x as u32) as usize;
                assert(at == w * y + x);
                assert(at + 1 < open@.len());
                if roll % 1000 < 6 && open[at - 1] && open[at] && open[at + 1] {
                    out.push((area.x + x, area.y + y, ((roll / 1000) % 4) as usize));
                }
            }
            x += 1;
        }
        assert(w * y + w == w * (y + 1)) by (nonlinear_arith);
        y += 1;
    }
    out
}

/// A glint lands only on open ground.
pub proof fn a_glint_keeps_off_the_text(open: Seq<bool>, area: Rect, tick: u32, n: int, i: int)
    requires
        area.width > 0,
        area.x + area.width <= u16::MAX,
        area.y + area.height <= u16::MAX,
        0 <= n <= area.width * area.height,
        0 <= i < glints_upto(open, area, tick, n).len(),
    ensures
        ({
            let g = glints_upto(open, area, tick, n)[i];
            let at = (g.1 - area.y) * area.width + (g.0 - area.x);
            &&& area.holds(g.0 as int, g.1 as int)
            &&& open[at - 1] && open[at] && open[at + 1]
        }),
    decreases n,
{
    let before = glints_upto(open, area, tick, n - 1);
    let w = area.width as int;
    let x = (n - 1) % w;
    let y = (n - 1) / w;
    if i < before.len() {
        a_glint_keeps_off_the_text(open, area, tick, n - 1, i);
    } else {
        vstd::arithmetic::div_mod::lemma_fundamental_div_mod(n - 1, w);
        assert(y < area.height) by (nonlinear_arith)
            requires
                n - 1 == w * y + x,
                n <= area.width * area.height,
                w == area.width,
                0 <= x,
                w > 0,
        ;
        assert(y >= 0) by (nonlinear_arith)
            requires
                n - 1 == w * y + x,
                n >= 1,
                0 <= x < w,
                w > 0,
        ;
    }
}

/// The way out, or what is about to happen instead of it.
pub open spec fn party_label(dropping: bool, building: bool) -> Seq<char> {
    if dropping {
        " ♫  D R O P  ♫ "@
    } else if building {
        " ♫  here it comes…  ♫ "@
    } else {
        " ♫  ↑↑↓↓←→←→ba to go home  ♫ "@
    }
}

/// The dancers' moves, in the order they are danced.
pub const MOVES: [&'static str; 4] = ["\\o/", "\\o_", "_o/", "|o|"];

/// The columns a dancer takes up.
pub const DANCER: u16 = 4;

/// What stands across the middle of the equaliser.
pub struct Crowd {
    pub label: &'static str,
    /// Where the label begins.
    pub at: u16,
    /// Where each dancer begins, and which of [`MOVES`] they are in.
    pub dancers: Vec<(u16, usize)>,
}

/// Two dancers a side of a label of `width` columns that begins at `at`, each a
/// beat out of step with the next.
pub open spec fn dancing(at: int, width: int, beat: nat) -> Seq<(u16, usize)> {
    seq![
        ((at - 2 * DANCER) as u16, (beat % 4) as usize),
        ((at - DANCER) as u16, ((beat + 1) % 4) as usize),
        ((at + width) as u16, ((beat + 2) % 4) as usize),
        ((at + width + DANCER) as u16, ((beat + 3) % 4) as usize),
    ]
}

/// What stands across the middle of `footer` on beat `beat`: the label where there
/// is room for it, and a crowd either side where there is room for that too.
pub fn crowd(footer: Rect, dropping: bool, building: bool, beat: u32) -> (r: Option<Crowd>)
    requires
        footer.x + footer.width <= u16::MAX,
    ensures
        ({
            let label = party_label(dropping, building);
            let width = label.len() as int;
            match r {
                None => footer.width <= width,
                Some(c) => {
                    &&& footer.width > width
                    &&& c.label@ == label
                    &&& c.at == footer.x + (footer.width - width) / 2
                    &&& c.dancers@ == (if footer.width < width + 4 * DANCER + 2 {
                        Seq::empty()
                    } else {
                        dancing(c.at as int, width, beat as nat)
                    })
                },
            }
        }),
{
    let label = if dropping {
        " ♫  D R O P  ♫ "
    } else if building {
        " ♫  here it comes…  ♫ "
    } else {
        " ♫  ↑↑↓↓←→←→ba to go home  ♫ "
    };
    let n: usize = count(label);
    if footer.width as usize <= n {
        return None;
    }
    let width: u16 = n as u16;
    let at: u16 = footer.x + (footer.width - width) / 2;
    let mut dancers: Vec<(u16, usize)> = Vec::new();
    if footer.width as u32 >= width as u32 + 4 * DANCER as u32 + 2 {
        dancers.push((at - 2 * DANCER, (beat % 4) as usize));
        dancers.push((at - DANCER, ((beat as u64 + 1) % 4) as usize));
        dancers.push((at + width, ((beat as u64 + 2) % 4) as usize));
        dancers.push((at + width + DANCER, ((beat as u64 + 3) % 4) as usize));
        assert(dancers@ =~= dancing(at as int, width as int, beat as nat));
    }
    Some(Crowd { label, at, dancers })
}

/// Whoever dances stays on the footer, and off the label.
pub proof fn the_crowd_keeps_off_the_label(footer: Rect, dropping: bool, building: bool, beat: nat, i: int)
    requires
        footer.x + footer.width <= u16::MAX,
        footer.width >= party_label(dropping, building).len() + 4 * DANCER + 2,
        0 <= i < 4,
    ensures
        ({
            let width = party_label(dropping, building).len() as int;
            let at = footer.x + (footer.width - width) / 2;
            let x = dancing(at, width, beat)[i].0;
            &&& footer.x <= x && x + DANCER <= footer.x + footer.width
            &&& x + DANCER <= at || at + width <= x
        }),
{
}

/// Which of the six steps of a channel is nearest.
pub open spec fn cube_step(v: u8) -> int {
    if v < 48 {
        0
    } else if v < 115 {
        1
    } else {
        (v - 35) / 40
    }
}

fn step_of(v: u8) -> (r: u8)
    ensures
        r == cube_step(v),
        r <= 5,
{
    if v < 48 {
        0
    } else if v < 115 {
        1
    } else {
        (v - 35) / 40
    }
}

/// The nearest colour of the six-by-six-by-six cube, for a terminal that has no
/// others.
pub fn nearest_indexed(rgb: (u8, u8, u8)) -> (r: u8)
    ensures
        r == 16 + 36 * cube_step(rgb.0) + 6 * cube_step(rgb.1) + cube_step(rgb.2),
{
    16 + 36 * step_of(rgb.0) + 6 * step_of(rgb.1) + step_of(rgb.2)
}

/// The last moment any session was asked is one at which one of them was, and none was
/// asked later.
pub proof fn the_newest_is_the_last(sessions: Seq<Session>, n: int, i: int)
    requires
        0 <= n <= sessions.len(),
    ensures
        0 <= i < n && asked_at(sessions[i]) is Some ==> newest(sessions, n) is Some && !later(
            asked_at(sessions[i])->0,
            newest(sessions, n)->0,
        ),
        newest(sessions, n) is Some ==> exists|k: int|
            0 <= k < n && asked_at(#[trigger] sessions[k]) == newest(sessions, n),
    decreases n,
{
    if n > 0 {
        the_newest_is_the_last(sessions, n - 1, i);
        if newest(sessions, n) == asked_at(sessions[n - 1]) {
            assert(asked_at(sessions[n - 1]) == newest(sessions, n));
        }
    }
}

/// A moment is later by its seconds, and in the same second by its fraction; only the
/// two agents that are listened to are asked.
pub proof fn a_moment_is_later_by_its_seconds(a: (i64, u32), b: (i64, u32), s: Session)
    ensures
        a.0 > b.0 ==> later(a, b),
        a.0 < b.0 ==> !later(a, b),
        a.0 == b.0 ==> (later(a, b) <==> a.1 > b.1),
        s.provider != Provider::Claude && s.provider != Provider::Codex ==> asked_at(s) is None,
        s.ultracode_at is None ==> asked_at(s) is None,
{
}

/// What a step of a channel is worth.
pub open spec fn cube_level(step: int) -> int {
    if step == 0 {
        0
    } else {
        55 + 40 * step
    }
}

/// The step of a channel is the one whose worth is nearest: no other is nearer.
pub proof fn no_other_step_is_nearer(v: u8, other: int)
    requires
        0 <= other < 6,
    ensures
        0 <= cube_step(v) < 6,
        ({
            let near = cube_level(cube_step(v)) - v;
            let far = cube_level(other) - v;
            (if near < 0 {
                -near
            } else {
                near
            }) <= (if far < 0 {
                -far
            } else {
                far
            })
        }),
{
}

} // verus!
