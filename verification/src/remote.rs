//! Rows that belong to another machine, and the conflicts agents cause.
//!
//! A row of another machine is read-only: there is no process here to end and no
//! transcript here to delete. So the refusals are uniform wherever they are
//! reached from. Two agents editing one file is the same problem seen from the
//! other end.

use vstd::prelude::*;

use crate::app::{adds_up, compute_spend, spent, App, Effect, Mode, Spend};
use crate::keyboard::{Key, KeyCode};
use crate::keys::{value_of, KeyMap, KeySet};
use crate::model::{alike, key_of, Overlap, Remote, Session, Skew};
use crate::outside::maybe_text;
use crate::order::{key_lt, lex_lt, text_before, text_irreflexive, text_lt, text_transitive};
use crate::text::{cat, chars_of, dec, decimal, same, string_between, words};

verus! {

/// What a session's agent collides with.
pub struct Collision {
    pub level: Overlap,
    /// The other agents' sessions, by key.
    pub peers: Vec<String>,
    pub files: Vec<String>,
}

/// How the agent of the session `key` overlaps, as far as anything was found.
pub open spec fn overlap_in(found: KeyMap<Collision>, key: Seq<char>) -> Option<Overlap> {
    match found.at(key) {
        Some(c) => Some(c.level),
        None => None,
    }
}

/// A session's overlap with the other live agents, with the peers named the way
/// the table names them.
pub struct Clash {
    pub level: Overlap,
    pub peers: Vec<String>,
    pub files: Vec<String>,
}

/// Another machine.
pub struct Host {
    pub target: String,
    /// What the dashboard is called there.
    pub command: String,
}

impl Clone for Host {
    fn clone(&self) -> (r: Self)
        ensures
            r == *self,
    {
        Host { target: self.target.clone(), command: self.command.clone() }
    }
}

/// What a machine answered to being asked its version.
pub enum Probe {
    Version(String),
    Missing,
}

/// Why an update on another machine failed.
pub enum UpdateFailure {
    /// Only root can write there. What to run by hand.
    NeedsRoot(String),
    Other(String),
}

impl Fleet {
    /// Whether no other machine is known.
    pub open spec fn unknown(&self) -> bool {
        &&& self.remotes.items@.len() == 0
        &&& self.errors.items@.len() == 0
        &&& self.versions.items@.len() == 0
        &&& self.skew_told.items@.len() == 0
        &&& self.updating.items@.len() == 0
        &&& self.hosts@.len() == 0
        &&& self.update is None
    }

    /// No other machine.
    pub fn new() -> (r: Fleet)
        ensures
            r.unknown(),
    {
        Fleet {
            remotes: KeyMap::new(),
            errors: KeyMap::new(),
            versions: KeyMap::new(),
            skew_told: KeySet::new(),
            updating: KeySet::new(),
            hosts: Vec::new(),
            update: None,
        }
    }
}

/// The other machines, as far as they are known.
pub struct Fleet {
    /// The rows each machine last sent.
    pub remotes: KeyMap<Vec<Session>>,
    /// Why a machine does not answer.
    pub errors: KeyMap<String>,
    pub versions: KeyMap<Probe>,
    /// The machines whose build has been said to differ.
    pub skew_told: KeySet,
    /// The machines being updated.
    pub updating: KeySet,
    pub hosts: Vec<Host>,
    /// The machine an update is being asked about.
    pub update: Option<String>,
}

/// The number a digit stands for.
pub open spec fn digit_value(c: char) -> int {
    c as int - '0' as int
}

/// The numbers of a version so far, with one more of its characters read.
pub open spec fn version_step(nums: Seq<u64>, c: char) -> Seq<u64> {
    if c == '.' {
        nums.push(0)
    } else {
        let last = nums.last() * 10 + digit_value(c);
        nums.update(
            nums.len() - 1,
            (if last > u64::MAX {
                u64::MAX as int
            } else {
                last
            }) as u64,
        )
    }
}

/// The numbers of a version, up to its first character that is neither a digit
/// nor a dot.
pub open spec fn version_numbers(s: Seq<char>) -> Seq<u64>
    decreases s.len(),
{
    if s.len() == 0 {
        seq![0u64]
    } else {
        let before = version_numbers(s.drop_last());
        let c = s.last();
        if plain_version(s.drop_last()) && (c == '.' || '0' <= c <= '9') {
            version_step(before, c)
        } else {
            before
        }
    }
}

/// Whether a version is digits and dots only.
pub open spec fn plain_version(s: Seq<char>) -> bool {
    forall|i: int| 0 <= i < s.len() ==> (#[trigger] s[i]) == '.' || '0' <= s[i] <= '9'
}

proof fn version_len(s: Seq<char>)
    ensures
        version_numbers(s).len() >= 1,
    decreases s.len(),
{
    if s.len() > 0 {
        version_len(s.drop_last());
    }
}

fn numbers_of(s: &str) -> (r: Vec<u64>)
    ensures
        r@ == version_numbers(s@),
{
    let v = chars_of(s);
    let mut nums: Vec<u64> = Vec::new();
    nums.push(0);
    let mut plain = true;
    let mut i: usize = 0;
    assert(nums@ =~= version_numbers(v@.take(0)));
    while i < v.len()
        invariant
            i <= v@.len(),
            nums@ == version_numbers(v@.take(i as int)),
            plain == plain_version(v@.take(i as int)),
        decreases v@.len() - i,
    {
        let c = v[i];
        let ghost past = v@.take(i as int);
        let ghost now = v@.take(i + 1);
        proof {
            version_len(past);
            assert(now.drop_last() =~= past);
            assert(now.last() == c);
        }
        let ok = c == '.' || ('0' <= c && c <= '9');
        if plain && ok {
            if c == '.' {
                nums.push(0);
            } else {
                let at: usize = nums.len() - 1;
                let last: u128 = nums[at] as u128 * 10 + (c as u128 - '0' as u128);
                nums.set(
                    at,
                    if last > u64::MAX as u128 {
                        u64::MAX
                    } else {
                        last as u64
                    },
                );
            }
        }
        proof {
            assert(plain && ok ==> plain_version(now)) by {
                if plain && ok {
                    assert forall|j: int| 0 <= j < now.len() implies (#[trigger] now[j]) == '.' || '0' <= now[j] <= '9' by {
                        if j < i {
                            assert(past[j] == now[j]);
                        }
                    }
                }
            }
            assert(plain_version(now) ==> plain && ok) by {
                if plain_version(now) {
                    assert(now[i as int] == c);
                    assert forall|j: int| 0 <= j < past.len() implies (#[trigger] past[j]) == '.' || '0' <= past[j] <= '9' by {
                        assert(now[j] == past[j]);
                    }
                }
            }
        }
        plain = plain && ok;
        i += 1;
    }
    assert(v@.take(i as int) =~= v@);
    nums
}

/// How a machine's build stands against the version `local`, if it has said.
pub open spec fn skew_against(probe: Option<Probe>, local: Seq<char>) -> Option<Skew> {
    match probe {
        None => None,
        Some(Probe::Missing) => Some(Skew::Missing),
        Some(Probe::Version(v)) => if lex_lt(version_numbers(v@), version_numbers(local)) {
            Some(Skew::Older(v))
        } else if lex_lt(version_numbers(local), version_numbers(v@)) {
            Some(Skew::Newer(v))
        } else {
            None
        },
    }
}

/// How a machine's build stands against the version `local`.
pub fn skew(probe: &Probe, local: &str) -> (r: Option<Skew>)
    ensures
        r == skew_against(Some(*probe), local@),
{
    match probe {
        Probe::Missing => Some(Skew::Missing),
        Probe::Version(v) => {
            let a = numbers_of(v.as_str());
            let b = numbers_of(local);
            if key_lt(&a, &b) {
                Some(Skew::Older(v.clone()))
            } else if key_lt(&b, &a) {
                Some(Skew::Newer(v.clone()))
            } else {
                None
            }
        },
    }
}

/// Where the last `n` components of a path begin.
pub open spec fn tail_start(s: Seq<char>, n: nat) -> int
    decreases s.len(),
{
    if s.len() == 0 {
        0
    } else if s.last() == '/' {
        if n <= 1 {
            s.len() as int
        } else {
            tail_start(s.drop_last(), (n - 1) as nat)
        }
    } else {
        tail_start(s.drop_last(), n)
    }
}

/// The last `n` components of a path.
pub open spec fn tail_of(s: Seq<char>, n: nat) -> Seq<char> {
    s.skip(tail_start(s, n))
}

/// The last `n` components of a path.
pub fn path_tail(path: &str, n: usize) -> (r: String)
    ensures
        r@ == tail_of(path@, n as nat),
{
    let v = chars_of(path);
    let mut at: usize = v.len();
    let mut left: usize = n;
    assert(v@.take(at as int) =~= v@);
    while at > 0
        invariant
            at <= v@.len(),
            v@ == path@,
            tail_start(v@, n as nat) == tail_start(v@.take(at as int), left as nat),
        decreases at,
    {
        assert(v@.take(at as int).drop_last() =~= v@.take(at - 1));
        if v[at - 1] == '/' {
            if left <= 1 {
                let r = string_between(&v, at, v.len());
                assert(r@ =~= tail_of(path@, n as nat));
                return r;
            }
            left -= 1;
        }
        at -= 1;
    }
    let r = string_between(&v, 0, v.len());
    assert(r@ =~= tail_of(path@, n as nat));
    r
}

/// How many of the first `n` collisions are over a file.
pub open spec fn contested(items: Seq<(String, Collision)>, n: int) -> nat
    decreases n,
{
    if n <= 0 {
        0
    } else {
        contested(items, n - 1) + if items[n - 1].1.level == Overlap::File {
            1nat
        } else {
            0nat
        }
    }
}

/// Whether `f` is a file that two live agents have written.
pub open spec fn is_contested(items: Seq<(String, Collision)>, f: Seq<char>) -> bool {
    exists|i: int, k: int|
        0 <= i < items.len() && 0 <= k < items[i].1.files@.len() && items[i].1.level == Overlap::File && (
        #[trigger] items[i].1.files@[k])@ == f
}

/// The files that two live agents have written.
pub open spec fn contested_files(items: Seq<(String, Collision)>) -> Set<Seq<char>> {
    Set::new(|f: Seq<char>| is_contested(items, f))
}

/// Whether `f` is in `s` and nothing in it stands before `f`.
pub open spec fn is_first(s: Set<Seq<char>>, f: Seq<char>) -> bool {
    s.contains(f) && forall|g: Seq<char>| #[trigger] s.contains(g) ==> !text_before(g, f)
}

/// What the footer says of the files two live agents have written.
pub open spec fn conflict_words(first: Seq<char>, files: nat, agents: nat) -> Seq<char> {
    "Conflict: ⚠ "@ + tail_of(first, 2) + (if files == 1 {
        Seq::empty()
    } else {
        " +"@ + dec((files - 1) as nat) + " more"@
    }) + " — "@ + dec(agents) + " agents have written it"@
}

/// The sessions of this machine.
pub open spec fn locals(sessions: Seq<Session>) -> Seq<Session>
    decreases sessions.len(),
{
    if sessions.len() == 0 {
        Seq::empty()
    } else if sessions.last().remote is None {
        locals(sessions.drop_last()).push(sessions.last())
    } else {
        locals(sessions.drop_last())
    }
}

/// A row of another machine, with how that machine's build stands on it.
pub open spec fn skewed(s: Session, skew: Option<Skew>) -> Session {
    match s.remote {
        Some(r) => Session { remote: Some(Remote { skew, ..r }), ..s },
        None => s,
    }
}

/// The first `n` machines' rows, each with its machine's place.
pub open spec fn remote_rows(items: Seq<(String, Vec<Session>)>, n: int) -> Seq<(int, Session)>
    decreases n,
{
    if n <= 0 {
        Seq::empty()
    } else {
        remote_rows(items, n - 1) + items[n - 1].1@.map_values(|s: Session| (n - 1, s))
    }
}

/// The name of a collision's peer in the table, where it is in the table.
pub open spec fn label_of(sessions: Seq<Session>, key: Seq<char>) -> Option<Seq<char>>
    decreases sessions.len(),
{
    if sessions.len() == 0 {
        None
    } else if key_of(sessions[0]) == key {
        Some(sessions[0].label())
    } else {
        label_of(sessions.skip(1), key)
    }
}

/// The names of a collision's peers that are in the table.
pub open spec fn peer_labels(sessions: Seq<Session>, keys: Seq<String>) -> Seq<Seq<char>>
    decreases keys.len(),
{
    if keys.len() == 0 {
        Seq::empty()
    } else {
        let before = peer_labels(sessions, keys.drop_last());
        match label_of(sessions, keys.last()@) {
            Some(l) => before.push(l),
            None => before,
        }
    }
}

fn copy_texts(v: &Vec<String>) -> (r: Vec<String>)
    ensures
        r@ == v@,
{
    let mut out: Vec<String> = Vec::new();
    let mut i: usize = 0;
    while i < v.len()
        invariant
            i <= v@.len(),
            out@ == v@.take(i as int),
        decreases v@.len() - i,
    {
        out.push(v[i].clone());
        assert(out@ =~= v@.take(i + 1));
        i += 1;
    }
    assert(v@.take(i as int) =~= v@);
    out
}

/// What is said of a machine whose build is another one.
pub open spec fn skew_words(host: Seq<char>, skew: Skew, local: Seq<char>) -> Seq<char> {
    match skew {
        Skew::Older(v) => host + " runs cctop "@ + v@ + ", older than this "@ + local
            + " — Enter on one of its rows offers to update it"@,
        Skew::Newer(v) => host + " runs cctop "@ + v@ + ", newer than this "@ + local
            + " — `cctop --update` here to catch up"@,
        Skew::Missing => host + " has no cctop where ssh looks — install it there, or name the binary with --host "@
            + host + ":/path/to/cctop"@,
    }
}

impl App {
    /// What is said of the files two live agents have written, where there are
    /// any.
    pub open spec fn conflict_says(&self, r: Option<Seq<char>>) -> bool {
        let items = self.collisions.items@;
        let files = contested_files(items);
        match r {
            None => files == Set::<Seq<char>>::empty(),
            Some(text) => exists|first: Seq<char>|
                {
                    &&& #[trigger] is_first(files, first)
                    &&& files.finite()
                    &&& text == conflict_words(first, files.len(), contested(items, items.len() as int))
                },
        }
    }

    /// The footer's warning that two live agents have written the same file.
    ///
    /// Only the overlaps over a file. Agents share repositories all day and
    /// nothing has gone wrong yet, whereas two of them writing one file means one
    /// has already lost an edit or is about to.
    pub fn conflict_footer(&self) -> (r: Option<String>)
        ensures
            self.conflict_says(maybe_text(r)),
    {
        let ghost items = self.collisions.items@;
        let mut agents: usize = 0;
        let mut files = KeySet::new();
        let mut i: usize = 0;
        while i < self.collisions.items.len()
            invariant
                i <= items.len(),
                items == self.collisions.items@,
                agents <= i,
                agents == contested(items, i as int),
                files.tidy(),
                forall|f: Seq<char>| #[trigger] files@.contains(f) <==> is_contested(items.take(i as int), f),
            decreases items.len() - i,
        {
            let c = &self.collisions.items[i].1;
            let ghost past = items.take(i as int);
            let ghost now = items.take(i + 1);
            let ghost was = files@;
            if c.level == Overlap::File {
                agents += 1;
                let mut k: usize = 0;
                while k < c.files.len()
                    invariant
                        k <= c.files@.len(),
                        files.tidy(),
                        forall|f: Seq<char>| #[trigger]
                            files@.contains(f) <==> was.contains(f) || exists|m: int|
                                0 <= m < k && (#[trigger] c.files@[m])@ == f,
                    decreases c.files@.len() - k,
                {
                    let ghost prior = files@;
                    files.insert(c.files[k].clone());
                    proof {
                        assert forall|f: Seq<char>| #[trigger]
                            files@.contains(f) <==> was.contains(f) || exists|m: int|
                                0 <= m < k + 1 && (#[trigger] c.files@[m])@ == f by {
                            if files@.contains(f) && !prior.contains(f) {
                                assert(c.files@[k as int]@ == f);
                            }
                        }
                    }
                    k += 1;
                }
            }
            proof {
                assert(now[i as int] == items[i as int]);
                assert forall|f: Seq<char>| #[trigger] files@.contains(f) <==> is_contested(now, f) by {
                    if is_contested(past, f) {
                        let (a, k) = choose|a: int, k: int|
                            0 <= a < past.len() && 0 <= k < past[a].1.files@.len() && past[a].1.level == Overlap::File && (
                            #[trigger] past[a].1.files@[k])@ == f;
                        assert(now[a].1.files@[k]@ == f);
                    }
                    if is_contested(now, f) {
                        let (a, k) = choose|a: int, k: int|
                            0 <= a < now.len() && 0 <= k < now[a].1.files@.len() && now[a].1.level == Overlap::File && (
                            #[trigger] now[a].1.files@[k])@ == f;
                        if a < i {
                            assert(past[a].1.files@[k]@ == f);
                        } else {
                            assert(c.files@[k]@ == f);
                        }
                    }
                    if files@.contains(f) && !was.contains(f) {
                        let m = choose|m: int| 0 <= m < c.files@.len() && (#[trigger] c.files@[m])@ == f;
                        assert(now[i as int].1.files@[m]@ == f);
                    }
                }
            }
            i += 1;
        }
        assert(items.take(i as int) =~= items);
        assert(files@ =~= contested_files(items));
        if files.is_empty() {
            return None;
        }
        let first = first_of(&files);
        proof {
            files.tidy_len();
        }
        let mut s = cat("Conflict: ⚠ ", path_tail(first.as_str(), 2).as_str());
        let n: usize = files.items.len();
        proof {
            assert(n >= 1);
        }
        let more = if n == 1 {
            String::new()
        } else {
            let mut m = cat(" +", decimal(n as u128 - 1).as_str());
            m.append(" more");
            m
        };
        s.append(more.as_str());
        s.append(" — ");
        s.append(decimal(agents as u128).as_str());
        s.append(" agents have written it");
        assert(is_first(contested_files(items), first@));
        Some(s)
    }

    /// What the agents' collisions being found leaves of a state: each row is marked
    /// with how its agent overlaps, or not marked.
    pub open spec fn contested_by(&self, found: KeyMap<Collision>, after: App) -> bool {
        &&& after == (App { sessions: after.sessions, collisions: found, ..*self })
        &&& after.sessions@.len() == self.sessions@.len()
        &&& forall|i: int|
            0 <= i < self.sessions@.len() ==> #[trigger] after.sessions@[i] == (Session {
                conflict: overlap_in(found, key_of(self.sessions@[i])),
                ..self.sessions@[i]
            })
    }

    /// Take what the agents collide on, and mark each row with it.
    pub fn take_collisions(&mut self, found: KeyMap<Collision>)
        ensures
            old(self).contested_by(found, *final(self)),
    {
        let mut i: usize = 0;
        while i < self.sessions.len()
            invariant
                i <= self.sessions@.len(),
                self.sessions@.len() == old(self).sessions@.len(),
                *self == (App { sessions: self.sessions, ..*old(self) }),
                forall|j: int| i <= j < self.sessions@.len() ==> #[trigger] self.sessions@[j] == old(self).sessions@[j],
                forall|j: int|
                    0 <= j < i ==> #[trigger] self.sessions@[j] == (Session {
                        conflict: overlap_in(found, key_of(old(self).sessions@[j])),
                        ..old(self).sessions@[j]
                    }),
            decreases self.sessions@.len() - i,
        {
            let key = self.sessions[i].key();
            let level = match found.get(key.as_str()) {
                Some(c) => Some(c.level),
                None => None,
            };
            self.sessions[i].conflict = level;
            i += 1;
        }
        self.collisions = found;
    }

    /// How a machine's build stands against this one, if it has said.
    pub open spec fn skew_at(&self, host: Seq<char>) -> Option<Skew> {
        skew_against(self.fleet.versions.at(host), self.version@)
    }

    /// How `host`'s build stands against this one, if it has said.
    pub fn skew_of(&self, host: &str) -> (r: Option<Skew>)
        ensures
            r == self.skew_at(host@),
    {
        match self.fleet.versions.get(host) {
            Some(probe) => skew(probe, self.version.as_str()),
            None => None,
        }
    }

    /// Whether `mid` holds this machine's rows, and behind them every other
    /// machine's, each with how that machine's build stands.
    pub open spec fn merged(&self, mid: App) -> bool {
        let here = locals(self.sessions@);
        let rows = remote_rows(self.fleet.remotes.items@, self.fleet.remotes.items@.len() as int);
        &&& mid.sessions@.len() == here.len() + rows.len()
        &&& mid.sessions@.take(here.len() as int) == here
        &&& forall|i: int|
            0 <= i < rows.len() ==> alike(
                #[trigger] mid.sessions@[here.len() + i],
                skewed(rows[i].1, self.skew_at(self.fleet.remotes.items@[rows[i].0].0@)),
            )
        &&& adds_up(mid.spend, mid.sessions@)
        &&& mid == (App { sessions: mid.sessions, spend: mid.spend, ..*self })
    }

    /// What putting the rows of other machines back leaves of a state.
    pub open spec fn with_remotes(&self, after: App) -> bool {
        if self.fleet.remotes.items@.len() == 0 {
            after == *self
        } else {
            exists|mid: App| #[trigger] self.merged(mid) && mid.refiltered(mid.cursor_name(), after)
        }
    }

    /// Put the current rows of other machines back into the table.
    ///
    /// Every wholesale replacement of the sessions drops them, because the loader
    /// only ever knows about this machine. The totals are counted over both. With
    /// no other machine this does nothing.
    pub fn merge_remotes(&mut self)
        ensures
            old(self).with_remotes(*final(self)),
    {
        if self.fleet.remotes.is_empty() {
            return;
        }
        let mut sessions: Vec<Session> = Vec::new();
        std::mem::swap(&mut sessions, &mut self.sessions);
        let mut kept = keep_locals(sessions);
        let ghost here = kept@;
        let ghost items = self.fleet.remotes.items@;
        let mut h: usize = 0;
        assert(kept@.take(here.len() as int) =~= here);
        while h < self.fleet.remotes.items.len()
            invariant
                h <= items.len(),
                items == self.fleet.remotes.items@,
                *self == (App { sessions: self.sessions, ..*old(self) }),
                kept@.len() == here.len() + remote_rows(items, h as int).len(),
                kept@.take(here.len() as int) == here,
                forall|i: int|
                    0 <= i < remote_rows(items, h as int).len() ==> alike(
                        #[trigger] kept@[here.len() + i],
                        skewed(
                            remote_rows(items, h as int)[i].1,
                            old(self).skew_at(items[remote_rows(items, h as int)[i].0].0@),
                        ),
                    ),
            decreases items.len() - h,
        {
            let skew = self.skew_of(self.fleet.remotes.items[h].0.as_str());
            let rows = &self.fleet.remotes.items[h].1;
            let ghost before = kept@;
            let ghost past = remote_rows(items, h as int);
            let mut k: usize = 0;
            while k < rows.len()
                invariant
                    k <= rows@.len(),
                    kept@.len() == before.len() + k,
                    kept@.take(before.len() as int) == before,
                    forall|i: int|
                        0 <= i < k ==> alike(#[trigger] kept@[before.len() + i], skewed(rows@[i], skew)),
                decreases rows@.len() - k,
            {
                let ghost prior = kept@;
                let one = skew_row(&rows[k], &skew);
                kept.push(one);
                proof {
                    assert(kept@.take(before.len() as int) =~= prior.take(before.len() as int));
                    assert forall|i: int| 0 <= i < k + 1 implies alike(
                        #[trigger] kept@[before.len() + i],
                        skewed(rows@[i], skew),
                    ) by {
                        if i < k {
                            assert(kept@[before.len() + i] == prior[before.len() + i]);
                        }
                    }
                }
                k += 1;
            }
            proof {
                let now = remote_rows(items, h + 1);
                assert(now =~= past + rows@.map_values(|s: Session| (h as int, s)));
                assert(kept@.take(here.len() as int) =~= before.take(here.len() as int));
                assert forall|i: int| 0 <= i < now.len() implies alike(
                    #[trigger] kept@[here.len() + i],
                    skewed(now[i].1, old(self).skew_at(items[now[i].0].0@)),
                ) by {
                    if i < past.len() {
                        assert(kept@[here.len() + i] == before[here.len() + i]);
                        assert(now[i] == past[i]);
                    } else {
                        let j = i - past.len();
                        assert(kept@[before.len() + j] == kept@[here.len() + i]);
                        assert(now[i] == (h as int, rows@[j]));
                    }
                }
            }
            h += 1;
        }
        self.spend = compute_spend(&kept);
        self.sessions = kept;
        let ghost mid = *self;
        assert(old(self).merged(mid));
        self.refilter();
    }

    /// What taking the loader's totals leaves of a state.
    pub open spec fn adopted(&self, spend: Spend, after: App) -> bool {
        &&& after == (App { spend: after.spend, ..*self })
        &&& if self.fleet.remotes.items@.len() == 0 {
            after.spend == spend
        } else {
            adds_up(after.spend, self.sessions@)
        }
    }

    /// Take the loader's totals, unless other machines' rows mean they are not
    /// the whole picture.
    pub fn adopt_stats(&mut self, spend: Spend)
        ensures
            old(self).adopted(spend, *final(self)),
    {
        self.spend = if self.fleet.remotes.is_empty() {
            spend
        } else {
            compute_spend(&self.sessions)
        };
    }

    /// Why an action that reaches into this machine cannot apply to a row, or
    /// `None` when the row is this machine's.
    pub fn remote_refusal(session: &Session) -> (r: Option<String>)
        ensures
            match (r, session.remote) {
                (Some(text), Some(remote)) => text@ == session.label() + " is on "@ + remote.host@
                    + " — cctop reads other machines but only acts on this one"@,
                (None, None) => true,
                _ => false,
            },
    {
        match &session.remote {
            None => None,
            Some(remote) => {
                let mut s = cat(session.display_label(), " is on ");
                s.append(remote.host.as_str());
                s.append(" — cctop reads other machines but only acts on this one");
                Some(s)
            },
        }
    }

    /// What is said of the machines that do not answer: of the first of them by
    /// name, why.
    pub open spec fn down_says(&self, r: Option<Seq<char>>) -> bool {
        let items = self.fleet.errors.items@;
        match r {
            None => items.len() == 0,
            Some(text) => exists|i: int|
                {
                    &&& 0 <= i < items.len()
                    &&& forall|j: int|
                        0 <= j < items.len() ==> !text_before((#[trigger] items[j]).0@, (#[trigger] items[i]).0@)
                    &&& ({
                        let one = items[i].0@ + ": "@ + value_of(items, items[i].0@)->0@;
                        text == (if items.len() == 1 {
                            one
                        } else {
                            dec(items.len()) + " hosts unreachable ("@ + one + ")"@
                        })
                    })
                },
        }
    }

    /// The footer's note that a machine is not answering.
    ///
    /// One machine names its reason, which is nearly always the whole fix.
    /// Several would not fit, so they are counted.
    pub fn remote_footer(&self) -> (r: Option<String>)
        ensures
            self.down_says(maybe_text(r)),
    {
        let ghost items = self.fleet.errors.items@;
        let n: usize = self.fleet.errors.items.len();
        if n == 0 {
            return None;
        }
        let mut at: usize = 0;
        let mut k: usize = 1;
        proof {
            text_irreflexive(items[0].0@);
        }
        while k < n
            invariant
                1 <= k <= n,
                n == items.len(),
                items == self.fleet.errors.items@,
                at < k,
                forall|j: int| 0 <= j < k ==> !text_before((#[trigger] items[j]).0@, items[at as int].0@),
            decreases n - k,
        {
            let ghost best = items[at as int].0@;
            if text_lt(self.fleet.errors.items[k].0.as_str(), self.fleet.errors.items[at].0.as_str()) {
                at = k;
                proof {
                    assert forall|j: int| 0 <= j < k + 1 implies !text_before((#[trigger] items[j]).0@, items[k as int].0@) by {
                        if j == k {
                            text_irreflexive(items[k as int].0@);
                        } else if text_before(items[j].0@, items[k as int].0@) {
                            text_transitive(items[j].0@, items[k as int].0@, best);
                        }
                    }
                }
            }
            k += 1;
        }
        let host = self.fleet.errors.items[at].0.as_str();
        let mut one = cat(host, ": ");
        match self.fleet.errors.get(host) {
            Some(why) => {
                one.append(why.as_str());
            },
            None => {},
        }
        proof {
            crate::keys::place_is_first(items, host@);
            assert(items[at as int].0@ == host@);
        }
        if n == 1 {
            return Some(one);
        }
        let mut s = cat(decimal(n as u128).as_str(), " hosts unreachable (");
        s.append(one.as_str());
        s.append(")");
        Some(s)
    }

    /// What one session collides with, with its peers named the way the table
    /// names them.
    pub fn clash_of(&self, session: &Session) -> (r: Option<Clash>)
        ensures
            match (r, self.collisions.at(key_of(*session))) {
                (Some(clash), Some(c)) => {
                    &&& clash.level == c.level
                    &&& clash.files@ == c.files@
                    &&& words(clash.peers@) == peer_labels(self.sessions@, c.peers@)
                },
                (None, None) => true,
                _ => false,
            },
    {
        let key = session.key();
        let c = match self.collisions.get(key.as_str()) {
            Some(c) => c,
            None => {
                return None;
            },
        };
        let mut peers: Vec<String> = Vec::new();
        let mut i: usize = 0;
        assert(words(peers@) =~= peer_labels(self.sessions@, c.peers@.take(0)));
        while i < c.peers.len()
            invariant
                i <= c.peers@.len(),
                words(peers@) == peer_labels(self.sessions@, c.peers@.take(i as int)),
            decreases c.peers@.len() - i,
        {
            let ghost was = peers@;
            proof {
                assert(c.peers@.take(i + 1).drop_last() =~= c.peers@.take(i as int));
                assert(c.peers@.take(i + 1).last() == c.peers@[i as int]);
            }
            match self.label_at(c.peers[i].as_str()) {
                Some(l) => {
                    let ghost lv = l@;
                    peers.push(l);
                    assert(words(peers@) =~= words(was).push(lv));
                },
                None => {},
            }
            i += 1;
        }
        assert(c.peers@.take(i as int) =~= c.peers@);
        Some(Clash { level: c.level, peers, files: copy_texts(&c.files) })
    }

    fn label_at(&self, key: &str) -> (r: Option<String>)
        ensures
            match (r, label_of(self.sessions@, key@)) {
                (Some(a), Some(b)) => a@ == b,
                (None, None) => true,
                _ => false,
            },
    {
        let mut i: usize = 0;
        assert(self.sessions@.skip(0) =~= self.sessions@);
        while i < self.sessions.len()
            invariant
                i <= self.sessions@.len(),
                label_of(self.sessions@, key@) == label_of(self.sessions@.skip(i as int), key@),
            decreases self.sessions@.len() - i,
        {
            if same(self.sessions[i].key().as_str(), key) {
                return Some(self.sessions[i].display_label().to_owned());
            }
            assert(self.sessions@.skip(i as int).skip(1) =~= self.sessions@.skip(i + 1));
            i += 1;
        }
        None
    }

    /// Whether the cursor is on a row read from another machine.
    pub fn selected_is_remote(&self) -> (r: bool)
        ensures
            r == (self.session_at() is Some && self.session_at()->0.remote is Some),
    {
        match self.selected_session() {
            Some(s) => s.remote.is_some(),
            None => false,
        }
    }

    /// What a machine's answer to being asked its version makes of a state.
    pub open spec fn heard_version(&self, host: Seq<char>, probe: Probe, after: App) -> bool {
        &&& after.fleet.versions.at(host) == Some(probe)
        &&& forall|h: Seq<char>|
            h != host ==> #[trigger] after.fleet.versions.at(h) == self.fleet.versions.at(h)
        &&& ({
            let skew = skew_against(Some(probe), self.version@);
            let known = App { fleet: Fleet { versions: after.fleet.versions, ..self.fleet }, ..*self };
            if skew is None {
                after == known
            } else {
                &&& after.fleet.skew_told@ == self.fleet.skew_told@.insert(host)
                &&& if self.fleet.skew_told@.contains(host) {
                    after == (App { fleet: Fleet { skew_told: after.fleet.skew_told, ..known.fleet }, ..known })
                } else {
                    (App { fleet: Fleet { skew_told: after.fleet.skew_told, ..known.fleet }, ..known }).said(
                        skew_words(host, skew->0, self.version@),
                        after,
                    )
                }
            }
        })
    }

    /// Take a machine's answer to being asked its version, and say so once if it
    /// is another than this one.
    ///
    /// A machine left on an old build is exactly the thing nobody notices: the
    /// rows keep arriving. So a mismatch is said out loud, once per machine.
    pub fn got_remote_version(&mut self, host: String, probe: Probe)
        ensures
            old(self).heard_version(host@, probe, *final(self)),
    {
        let skew = skew(&probe, self.version.as_str());
        self.fleet.versions.insert(host.clone(), probe);
        let skew = match skew {
            Some(s) => s,
            None => {
                return;
            },
        };
        if !self.fleet.skew_told.insert(host.clone()) {
            return;
        }
        let mut s = String::new();
        match skew {
            Skew::Older(v) => {
                s = cat(host.as_str(), " runs cctop ");
                s.append(v.as_str());
                s.append(", older than this ");
                s.append(self.version.as_str());
                s.append(" — Enter on one of its rows offers to update it");
            },
            Skew::Newer(v) => {
                s = cat(host.as_str(), " runs cctop ");
                s.append(v.as_str());
                s.append(", newer than this ");
                s.append(self.version.as_str());
                s.append(" — `cctop --update` here to catch up");
            },
            Skew::Missing => {
                s = cat(
                    host.as_str(),
                    " has no cctop where ssh looks — install it there, or name the binary with --host ",
                );
                s.append(host.as_str());
                s.append(":/path/to/cctop");
            },
        }
        self.set_status(s);
    }

    /// Why a machine cannot be offered the update.
    pub open spec fn update_refused(&self, host: Seq<char>) -> Option<Seq<char>> {
        if self.fleet.updating@.contains(host) {
            Some("an update of "@ + host + " is already under way"@)
        } else {
            match self.skew_at(host) {
                Some(Skew::Older(_)) => None,
                Some(Skew::Newer(v)) => Some(
                    host + " runs "@ + v@ + ", newer than this cctop — update this one instead"@,
                ),
                Some(Skew::Missing) => Some(host + " has no cctop to update"@),
                None => Some(
                    match self.fleet.versions.at(host) {
                        Some(Probe::Version(v)) => host + " already runs "@ + v@,
                        _ => host + "'s cctop version is not known yet"@,
                    },
                ),
            }
        }
    }

    /// Why a machine cannot be offered the update, naming it; `None` when it can.
    ///
    /// Only a machine known to be behind is offered one. Running a self-replacing
    /// program on someone's server on a guess is not a thing to put one key away.
    pub fn remote_update_refusal(&self, host: &str) -> (r: Option<String>)
        ensures
            match (r, self.update_refused(host@)) {
                (Some(a), Some(b)) => a@ == b,
                (None, None) => true,
                _ => false,
            },
    {
        if self.fleet.updating.contains(host) {
            let mut s = cat("an update of ", host);
            s.append(" is already under way");
            return Some(s);
        }
        match self.skew_of(host) {
            Some(Skew::Older(_)) => None,
            Some(Skew::Newer(v)) => {
                let mut s = cat(host, " runs ");
                s.append(v.as_str());
                s.append(", newer than this cctop — update this one instead");
                Some(s)
            },
            Some(Skew::Missing) => Some(cat(host, " has no cctop to update")),
            None => match self.fleet.versions.get(host) {
                Some(Probe::Version(v)) => {
                    let mut s = cat(host, " already runs ");
                    s.append(v.as_str());
                    Some(s)
                },
                _ => Some(cat(host, "'s cctop version is not known yet")),
            },
        }
    }

    /// Ask before running the update on the selected row's machine.
    pub fn confirm_remote_update(&mut self)
        ensures
            match old(self).session_at() {
                Some(s) => match s.remote {
                    Some(remote) => match old(self).update_refused(remote.host@) {
                        Some(why) => old(self).said(why, *final(self)),
                        None => *final(self) == (App {
                            fleet: Fleet { update: Some(remote.host), ..old(self).fleet },
                            mode: Mode::RemoteUpdateConfirm,
                            ..*old(self)
                        }),
                    },
                    None => *final(self) == *old(self),
                },
                None => *final(self) == *old(self),
            },
    {
        let host = match self.selected_session() {
            Some(s) => match &s.remote {
                Some(remote) => remote.host.clone(),
                None => {
                    return;
                },
            },
            None => {
                return;
            },
        };
        match self.remote_update_refusal(host.as_str()) {
            Some(why) => {
                self.set_status(why);
            },
            None => {
                self.fleet.update = Some(host);
                self.mode = Mode::RemoteUpdateConfirm;
            },
        }
    }

    /// The machine of a name, the first of them.
    pub open spec fn host_named(hosts: Seq<Host>, target: Seq<char>) -> Option<Host>
        decreases hosts.len(),
    {
        if hosts.len() == 0 {
            None
        } else if hosts[0].target@ == target {
            Some(hosts[0])
        } else {
            App::host_named(hosts.skip(1), target)
        }
    }

    /// The machine behind a name, command and all.
    pub fn remote_host(&self, target: &str) -> (r: Option<&Host>)
        ensures
            match r {
                Some(h) => App::host_named(self.fleet.hosts@, target@) == Some(*h),
                None => App::host_named(self.fleet.hosts@, target@) is None,
            },
    {
        let mut i: usize = 0;
        assert(self.fleet.hosts@.skip(0) =~= self.fleet.hosts@);
        while i < self.fleet.hosts.len()
            invariant
                i <= self.fleet.hosts@.len(),
                App::host_named(self.fleet.hosts@, target@) == App::host_named(
                    self.fleet.hosts@.skip(i as int),
                    target@,
                ),
            decreases self.fleet.hosts@.len() - i,
        {
            if same(self.fleet.hosts[i].target.as_str(), target) {
                return Some(&self.fleet.hosts[i]);
            }
            assert(self.fleet.hosts@.skip(i as int).skip(1) =~= self.fleet.hosts@.skip(i + 1));
            i += 1;
        }
        None
    }

    /// The answer to the confirmation. Anything but `y` is a no, and asks for
    /// nothing.
    pub fn on_key_remote_update(&mut self, key: Key)
        ensures
            ({
                let closed = App { mode: Mode::List, fleet: Fleet { update: None, ..old(self).fleet }, ..*old(self) };
                match old(self).fleet.update {
                    Some(target) => match (App::host_named(old(self).fleet.hosts@, target@), key.code) {
                        (Some(host), KeyCode::Char('y')) => {
                            &&& final(self).fleet.updating@ == old(self).fleet.updating@.insert(target@)
                            &&& final(self).effects@ == old(self).effects@.push(Effect::UpdateRemote(host))
                            &&& (App {
                                fleet: Fleet { updating: final(self).fleet.updating, ..closed.fleet },
                                effects: final(self).effects,
                                ..closed
                            }).said("Updating cctop on "@ + target@ + "…"@, *final(self))
                        },
                        _ => *final(self) == closed,
                    },
                    None => *final(self) == closed,
                }
            }),
    {
        self.mode = Mode::List;
        let target = match self.fleet.update.take() {
            Some(t) => t,
            None => {
                return;
            },
        };
        if key.code != KeyCode::Char('y') {
            return;
        }
        let host = match self.remote_host(target.as_str()) {
            Some(h) => h.clone(),
            None => {
                return;
            },
        };
        self.fleet.updating.insert(target.clone());
        self.ask(Effect::UpdateRemote(host));
        let mut s = cat("Updating cctop on ", target.as_str());
        s.append("…");
        self.set_status(s);
    }

    /// How an update on another machine went.
    ///
    /// An install only root can write is said as such, with the command to run:
    /// no password is typed there from here.
    pub fn remote_updated(&mut self, host: String, result: Result<String, UpdateFailure>)
        ensures
            final(self).fleet.updating@ == old(self).fleet.updating@.remove(host@),
            (App { fleet: Fleet { updating: final(self).fleet.updating, ..old(self).fleet }, ..*old(self) }).said(
                match result {
                    Ok(said) => host@ + ": "@ + said@,
                    Err(UpdateFailure::NeedsRoot(manual)) => "Could not update "@ + host@
                        + ": its cctop is in a directory only root can write. Run it yourself: "@ + manual@,
                    Err(UpdateFailure::Other(why)) => "Could not update "@ + host@ + ": "@ + why@,
                },
                *final(self),
            ),
    {
        self.fleet.updating.remove(host.as_str());
        let mut s = String::new();
        match result {
            Ok(said) => {
                s = cat(host.as_str(), ": ");
                s.append(said.as_str());
            },
            Err(UpdateFailure::NeedsRoot(manual)) => {
                s = cat("Could not update ", host.as_str());
                s.append(": its cctop is in a directory only root can write. Run it yourself: ");
                s.append(manual.as_str());
            },
            Err(UpdateFailure::Other(why)) => {
                s = cat("Could not update ", host.as_str());
                s.append(": ");
                s.append(why.as_str());
            },
        }
        self.set_status(s);
    }
}

fn keep_locals(sessions: Vec<Session>) -> (r: Vec<Session>)
    ensures
        r@ == locals(sessions@),
{
    let ghost was = sessions@;
    let n: usize = sessions.len();
    let mut rest = sessions;
    let mut kept: Vec<Session> = Vec::new();
    let mut i: usize = 0;
    assert(was.take(0) =~= Seq::<Session>::empty());
    assert(was.skip(0) =~= was);
    while i < n
        invariant
            i <= n,
            n == was.len(),
            rest@ == was.skip(i as int),
            kept@ == locals(was.take(i as int)),
        decreases n - i,
    {
        let one = rest.remove(0);
        assert(rest@ =~= was.skip(i + 1));
        proof {
            assert(was.take(i + 1).drop_last() =~= was.take(i as int));
            assert(was.take(i + 1).last() == one);
        }
        if one.remote.is_none() {
            kept.push(one);
        }
        i += 1;
    }
    assert(was.take(i as int) =~= was);
    kept
}

fn skew_row(row: &Session, skew: &Option<Skew>) -> (r: Session)
    ensures
        alike(r, skewed(*row, *skew)),
{
    let mut s = row.copy();
    let skew = match skew {
        Some(k) => Some(k.clone()),
        None => None,
    };
    let remote = match s.remote.take() {
        Some(r) => Some(Remote { host: r.host, branch: r.branch, skew }),
        None => None,
    };
    s.remote = remote;
    s
}

fn first_of(files: &KeySet) -> (r: String)
    requires
        files@ != Set::<Seq<char>>::empty(),
    ensures
        is_first(files@, r@),
{
    let n: usize = files.items.len();
    proof {
        if n == 0 {
            assert(files@ =~= Set::<Seq<char>>::empty());
        }
        text_irreflexive(files.items@[0]@);
    }
    let mut at: usize = 0;
    let mut k: usize = 1;
    while k < n
        invariant
            1 <= k <= n,
            n == files.items@.len(),
            at < k,
            forall|j: int| 0 <= j < k ==> !text_before((#[trigger] files.items@[j])@, files.items@[at as int]@),
        decreases n - k,
    {
        let ghost best = files.items@[at as int]@;
        if text_lt(files.items[k].as_str(), files.items[at].as_str()) {
            at = k;
            proof {
                let now = files.items@[k as int]@;
                assert forall|j: int| 0 <= j < k + 1 implies !text_before((#[trigger] files.items@[j])@, now) by {
                    if j == k {
                        text_irreflexive(now);
                    } else if text_before(files.items@[j]@, now) {
                        text_transitive(files.items@[j]@, now, best);
                    }
                }
            }
        }
        k += 1;
    }
    let first = files.items[at].clone();
    proof {
        assert(files@.contains(first@));
        assert forall|g: Seq<char>| #[trigger] files@.contains(g) implies !text_before(g, first@) by {
            let j = choose|j: int| 0 <= j < files.items@.len() && (#[trigger] files.items@[j])@ == g;
            assert(!text_before(files.items@[j]@, first@));
        }
    }
    first
}

/// Putting the other machines' rows back keeps this machine's rows as they were,
/// so that doing it twice is doing it once.
pub proof fn merging_keeps_this_machines_rows(app: App, mid: App)
    requires
        app.merged(mid),
        forall|i: int, k: int|
            0 <= i < app.fleet.remotes.items@.len() && 0 <= k < app.fleet.remotes.items@[i].1@.len() ==> (
            #[trigger] app.fleet.remotes.items@[i].1@[k]).remote is Some,
    ensures
        locals(mid.sessions@) == locals(app.sessions@),
{
    let here = locals(app.sessions@);
    let n = here.len() as int;
    locals_are_local(app.sessions@);
    locals_of_locals(here);
    let rows = remote_rows(app.fleet.remotes.items@, app.fleet.remotes.items@.len() as int);
    remote_rows_are_remote(app.fleet.remotes.items@, app.fleet.remotes.items@.len() as int);
    assert forall|i: int| n <= i < mid.sessions@.len() implies (#[trigger] mid.sessions@[i]).remote is Some by {
        let j = i - n;
        assert(mid.sessions@[n + j] == mid.sessions@[i]);
        assert(rows[j].1.remote is Some);
    }
    locals_of_prefix(mid.sessions@, n);
}

proof fn locals_are_local(s: Seq<Session>)
    ensures
        forall|i: int| 0 <= i < locals(s).len() ==> (#[trigger] locals(s)[i]).remote is None,
    decreases s.len(),
{
    if s.len() > 0 {
        locals_are_local(s.drop_last());
    }
}

proof fn locals_of_locals(s: Seq<Session>)
    requires
        forall|i: int| 0 <= i < s.len() ==> (#[trigger] s[i]).remote is None,
    ensures
        locals(s) == s,
    decreases s.len(),
{
    if s.len() > 0 {
        assert forall|i: int| 0 <= i < s.drop_last().len() implies (#[trigger] s.drop_last()[i]).remote is None by {
            assert(s.drop_last()[i] == s[i]);
        }
        locals_of_locals(s.drop_last());
        assert(s.drop_last().push(s.last()) =~= s);
    }
}

proof fn locals_of_prefix(s: Seq<Session>, n: int)
    requires
        0 <= n <= s.len(),
        forall|i: int| n <= i < s.len() ==> (#[trigger] s[i]).remote is Some,
    ensures
        locals(s) == locals(s.take(n)),
    decreases s.len(),
{
    if s.len() > n {
        let t = s.drop_last();
        assert forall|i: int| n <= i < t.len() implies (#[trigger] t[i]).remote is Some by {
            assert(t[i] == s[i]);
        }
        locals_of_prefix(t, n);
        assert(t.take(n) =~= s.take(n));
        assert(s.last() == s[s.len() - 1]);
    } else {
        assert(s.take(n) =~= s);
    }
}

proof fn remote_rows_are_remote(items: Seq<(String, Vec<Session>)>, n: int)
    requires
        0 <= n <= items.len(),
        forall|i: int, k: int|
            0 <= i < items.len() && 0 <= k < items[i].1@.len() ==> (#[trigger] items[i].1@[k]).remote is Some,
    ensures
        forall|i: int| 0 <= i < remote_rows(items, n).len() ==> (#[trigger] remote_rows(items, n)[i]).1.remote is Some,
    decreases n,
{
    if n > 0 {
        remote_rows_are_remote(items, n - 1);
        let a = remote_rows(items, n - 1);
        assert forall|i: int| 0 <= i < remote_rows(items, n).len() implies (
        #[trigger] remote_rows(items, n)[i]).1.remote is Some by {
            if i >= a.len() {
                assert(remote_rows(items, n)[i].1 == items[n - 1].1@[i - a.len()]);
            } else {
                assert(remote_rows(items, n)[i] == a[i]);
            }
        }
    }
}

/// A mismatch is said once: a machine that was told of is not told of again,
/// whatever it answers.
pub proof fn a_mismatch_is_said_once(before: App, host: Seq<char>, first: Probe, after: App, second: Probe, later: App)
    requires
        before.heard_version(host, first, after),
        skew_against(Some(first), before.version@) is Some,
        after.heard_version(host, second, later),
    ensures
        later.status == after.status,
        later.toasts == after.toasts,
{
}

proof fn a_number_is_read_on(s: Seq<char>, n: nat)
    requires
        n <= u64::MAX,
        plain_version(s),
        version_numbers(s).len() > 0,
        version_numbers(s).last() == 0,
    ensures
        plain_version(s + dec(n)),
        version_numbers(s + dec(n)) == version_numbers(s).update(version_numbers(s).len() - 1, n as u64),
    decreases n,
{
    let nums = version_numbers(s);
    crate::text::a_number_reads_back(n);
    let all = s + dec(n);
    assert forall|i: int| 0 <= i < all.len() implies (#[trigger] all[i]) == '.' || '0' <= all[i] <= '9' by {
        if i < s.len() {
            assert(all[i] == s[i]);
        } else {
            assert(all[i] == dec(n)[i - s.len()]);
        }
    }
    if n < 10 {
        assert(dec(n).len() == 1);
        assert(all.drop_last() =~= s);
        assert(all.last() == crate::text::digit(n as int));
        assert(version_numbers(all) =~= nums.update(nums.len() - 1, n as u64));
    } else {
        a_number_is_read_on(s, n / 10);
        let before = s + dec(n / 10);
        assert(all.drop_last() =~= before);
        assert(all.last() == crate::text::digit((n % 10) as int));
        let k = nums.len() - 1;
        assert(version_numbers(before) == nums.update(k, (n / 10) as u64));
        assert(version_numbers(all) =~= nums.update(k, n as u64));
    }
}

proof fn a_dot_begins_a_number(s: Seq<char>)
    requires
        plain_version(s),
    ensures
        plain_version(s + "."@),
        version_numbers(s + "."@) == version_numbers(s).push(0),
{
    reveal_strlit(".");
    let all = s + "."@;
    assert(all.drop_last() =~= s);
    assert(all.last() == '.');
    assert forall|i: int| 0 <= i < all.len() implies (#[trigger] all[i]) == '.' || '0' <= all[i] <= '9' by {
        if i < s.len() {
            assert(all[i] == s[i]);
        }
    }
}

/// A version is read as the numbers it is written of.
pub proof fn a_version_is_its_numbers(a: u64, b: u64, c: u64)
    ensures
        version_numbers(dec(a as nat) + "."@ + dec(b as nat) + "."@ + dec(c as nat)) == seq![a, b, c],
{
    let none = Seq::<char>::empty();
    assert(version_numbers(none) == seq![0u64]);
    a_number_is_read_on(none, a as nat);
    let x = none + dec(a as nat);
    assert(x =~= dec(a as nat));
    assert(version_numbers(x) =~= seq![a]);
    a_dot_begins_a_number(x);
    let y = x + "."@;
    assert(version_numbers(y) =~= seq![a, 0]);
    a_number_is_read_on(y, b as nat);
    let z = y + dec(b as nat);
    assert(version_numbers(z) =~= seq![a, b]);
    a_dot_begins_a_number(z);
    let w = z + "."@;
    assert(version_numbers(w) =~= seq![a, b, 0]);
    a_number_is_read_on(w, c as nat);
    assert(version_numbers(w + dec(c as nat)) =~= seq![a, b, c]);
}

/// A machine's build is older where the first number its version differs in is smaller,
/// newer where it is larger, and of no concern where none differs: the numbers are
/// compared and not their digits.
pub proof fn builds_are_compared_by_their_numbers(v: String, local: Seq<char>, a: u64, b: u64, c: u64, x: u64, y: u64, z: u64)
    requires
        v@ == dec(a as nat) + "."@ + dec(b as nat) + "."@ + dec(c as nat),
        local == dec(x as nat) + "."@ + dec(y as nat) + "."@ + dec(z as nat),
    ensures
        a < x || (a == x && (b < y || (b == y && c < z))) <==> skew_against(Some(Probe::Version(v)), local) == Some(
            Skew::Older(v),
        ),
        x < a || (a == x && (y < b || (b == y && z < c))) <==> skew_against(Some(Probe::Version(v)), local) == Some(
            Skew::Newer(v),
        ),
        a == x && b == y && c == z <==> skew_against(Some(Probe::Version(v)), local) is None,
        skew_against(Some(Probe::Missing), local) == Some(Skew::Missing),
        skew_against(None, local) is None,
{
    a_version_is_its_numbers(a, b, c);
    a_version_is_its_numbers(x, y, z);
    let (p, q) = (seq![a, b, c], seq![x, y, z]);
    reveal_with_fuel(lex_lt, 4);
    assert(p.skip(1) =~= seq![b, c] && q.skip(1) =~= seq![y, z]);
    assert(p.skip(1).skip(1) =~= seq![c] && q.skip(1).skip(1) =~= seq![z]);
    assert(seq![b, c].skip(1) =~= seq![c] && seq![y, z].skip(1) =~= seq![z]);
    assert(seq![c].skip(1).len() == 0 && seq![z].skip(1).len() == 0);
}

proof fn a_tail_without_slashes(dir: Seq<char>, name: Seq<char>, n: nat)
    requires
        forall|i: int| 0 <= i < name.len() ==> #[trigger] name[i] != '/',
    ensures
        tail_start(dir + "/"@ + name, n) == if n <= 1 {
            dir.len() as int + 1
        } else {
            tail_start(dir, (n - 1) as nat)
        },
        tail_start(name, n) == 0,
    decreases name.len(),
{
    reveal_strlit("/");
    let all = dir + "/"@ + name;
    if name.len() > 0 {
        assert(all.last() == name[name.len() - 1]);
        assert(all.drop_last() =~= dir + "/"@ + name.drop_last());
        a_tail_without_slashes(dir, name.drop_last(), n);
    } else {
        assert(all.last() == '/');
        assert(all.drop_last() =~= dir);
    }
}

/// The last component of a path is what stands behind its last slash, and the last few
/// are the last of its directory and then it; a path with no slash is its own.
pub proof fn the_end_of_a_path_is_kept(dir: Seq<char>, name: Seq<char>, n: nat)
    requires
        forall|i: int| 0 <= i < name.len() ==> #[trigger] name[i] != '/',
    ensures
        tail_of(name, n) == name,
        tail_of(dir + "/"@ + name, 1) == name,
        n >= 1 ==> tail_of(dir + "/"@ + name, n + 1) == tail_of(dir, n) + "/"@ + name,
{
    reveal_strlit("/");
    a_tail_without_slashes(dir, name, 1);
    a_tail_without_slashes(dir, name, n);
    a_tail_without_slashes(dir, name, n + 1);
    let all = dir + "/"@ + name;
    assert(name.skip(0) =~= name);
    assert(all.skip(dir.len() as int + 1) =~= name);
    if n >= 1 {
        tail_is_inside(dir, n);
        let at = tail_start(dir, n);
        assert(all.skip(at) =~= dir.skip(at) + "/"@ + name);
    }
}

proof fn tail_is_inside(s: Seq<char>, n: nat)
    ensures
        0 <= tail_start(s, n) <= s.len(),
    decreases s.len(),
{
    if s.len() > 0 {
        if s.last() == '/' {
            if n > 1 {
                tail_is_inside(s.drop_last(), (n - 1) as nat);
            }
        } else {
            tail_is_inside(s.drop_last(), n);
        }
    }
}

/// A session is called as the first row with its key is, and by no other row's name.
pub proof fn a_peer_is_called_by_its_row(sessions: Seq<Session>, key: Seq<char>, k: int)
    requires
        0 <= k <= sessions.len(),
        forall|i: int| 0 <= i < k ==> key_of(#[trigger] sessions[i]) != key,
        k < sessions.len() ==> key_of(sessions[k]) == key,
    ensures
        k < sessions.len() ==> label_of(sessions, key) == Some(sessions[k].label()),
        k == sessions.len() ==> label_of(sessions, key) is None,
    decreases k,
{
    if k > 0 {
        assert(key_of(sessions[0]) != key);
        assert forall|i: int| 0 <= i < k - 1 implies key_of(#[trigger] sessions.skip(1)[i]) != key by {
            assert(sessions.skip(1)[i] == sessions[i + 1]);
        }
        a_peer_is_called_by_its_row(sessions.skip(1), key, k - 1);
    }
}

/// A machine is the first of those named that has the name asked for.
pub proof fn a_machine_is_found_by_its_name(hosts: Seq<Host>, target: Seq<char>, k: int)
    requires
        0 <= k <= hosts.len(),
        forall|i: int| 0 <= i < k ==> (#[trigger] hosts[i]).target@ != target,
        k < hosts.len() ==> hosts[k].target@ == target,
    ensures
        k < hosts.len() ==> App::host_named(hosts, target) == Some(hosts[k]),
        k == hosts.len() ==> App::host_named(hosts, target) is None,
    decreases k,
{
    if k > 0 {
        assert(hosts[0].target@ != target);
        assert forall|i: int| 0 <= i < k - 1 implies (#[trigger] hosts.skip(1)[i]).target@ != target by {
            assert(hosts.skip(1)[i] == hosts[i + 1]);
        }
        a_machine_is_found_by_its_name(hosts.skip(1), target, k - 1);
    }
}

/// The sessions of this machine are those that no other machine has, in the order they
/// stood in.
pub proof fn this_machines_sessions_stay(sessions: Seq<Session>)
    ensures
        locals(sessions) == sessions.filter(|s: Session| s.remote is None),
    decreases sessions.len(),
{
    reveal(Seq::filter);
    if sessions.len() > 0 {
        this_machines_sessions_stay(sessions.drop_last());
    }
}

proof fn rows_of_a_machine(items: Seq<(String, Vec<Session>)>, n: int, m: int, k: int)
    requires
        0 <= m < n <= items.len(),
        0 <= k < items[m].1@.len(),
    ensures
        remote_rows(items, n).contains((m, items[m].1@[k])),
    decreases n,
{
    let before = remote_rows(items, n - 1);
    let own = items[n - 1].1@.map_values(|s: Session| (n - 1, s));
    let all = remote_rows(items, n);
    assert(all == before + own);
    if m < n - 1 {
        rows_of_a_machine(items, n - 1, m, k);
        let i = choose|i: int| 0 <= i < before.len() && before[i] == (m, items[m].1@[k]);
        assert(all[i] == (m, items[m].1@[k]));
    } else {
        assert(own[k] == (m, items[m].1@[k]));
        assert(all[before.len() + k] == own[k]);
    }
}

/// Every row of another machine is there, with its own machine.
pub proof fn every_machines_rows_are_there(items: Seq<(String, Vec<Session>)>, m: int, k: int)
    requires
        0 <= m < items.len(),
        0 <= k < items[m].1@.len(),
    ensures
        remote_rows(items, items.len() as int).contains((m, items[m].1@[k])),
{
    rows_of_a_machine(items, items.len() as int, m, k);
}

/// A machine can be updated where its build is older than this one and no update of it
/// is under way, and only there.
pub proof fn only_an_older_build_is_updated(app: App, host: Seq<char>, v: String, local: Seq<char>, a: u64, b: u64, c: u64, x: u64, y: u64, z: u64)
    requires
        app.fleet.versions.at(host) == Some(Probe::Version(v)),
        app.version@ == local,
        v@ == dec(a as nat) + "."@ + dec(b as nat) + "."@ + dec(c as nat),
        local == dec(x as nat) + "."@ + dec(y as nat) + "."@ + dec(z as nat),
    ensures
        app.update_refused(host) is None <==> !app.fleet.updating@.contains(host) && (a < x || (a == x && (b < y || (b == y
            && c < z)))),
{
    builds_are_compared_by_their_numbers(v, local, a, b, c, x, y, z);
}

proof fn every_fight_counts(items: Seq<(String, Collision)>, n: int)
    requires
        0 <= n <= items.len(),
    ensures
        contested(items, n) == items.take(n).filter(|i: (String, Collision)| i.1.level == Overlap::File).len(),
    decreases n,
{
    reveal(Seq::filter);
    if n > 0 {
        every_fight_counts(items, n - 1);
        assert(items.take(n).drop_last() =~= items.take(n - 1));
        assert(items.take(n).last() == items[n - 1]);
    }
}

/// The agents that are said to have written a file are those whose collision is over
/// one.
pub proof fn agents_over_a_file_are_counted(items: Seq<(String, Collision)>)
    ensures
        contested(items, items.len() as int) == items.filter(|i: (String, Collision)| i.1.level == Overlap::File).len(),
{
    every_fight_counts(items, items.len() as int);
    assert(items.take(items.len() as int) =~= items);
}

/// One machine that does not answer is said with why; of several how many there are
/// is said, and why of the first by name.
pub proof fn a_machine_that_is_down_is_named(app: App, r: Option<Seq<char>>)
    requires
        app.down_says(r),
    ensures
        app.fleet.errors.items@.len() == 0 <==> r is None,
        app.fleet.errors.items@.len() == 1 ==> r == Some(
            app.fleet.errors.items@[0].0@ + ": "@ + app.fleet.errors.items@[0].1@,
        ),
        app.fleet.errors.items@.len() > 1 ==> crate::text::begins(r->0, dec(app.fleet.errors.items@.len()) + " hosts unreachable ("@),
{
    let items = app.fleet.errors.items@;
    if items.len() == 1 {
        crate::keys::place_found(items, items[0].0@, 0);
        assert(value_of(items, items[0].0@) == Some(items[0].1));
    }
    if items.len() > 1 {
        let head = dec(items.len()) + " hosts unreachable ("@;
        let i = choose|i: int|
            {
                &&& 0 <= i < items.len()
                &&& forall|j: int|
                    0 <= j < items.len() ==> !text_before((#[trigger] items[j]).0@, (#[trigger] items[i]).0@)
                &&& ({
                    let one = items[i].0@ + ": "@ + value_of(items, items[i].0@)->0@;
                    r->0 == dec(items.len()) + " hosts unreachable ("@ + one + ")"@
                })
            };
        assert(r->0.take(head.len() as int) =~= head);
    }
}

/// What is said of a machine whose build differs begins with the machine's name and has
/// its version before this one's.
pub proof fn a_mismatch_names_its_machine(host: Seq<char>, v: String, local: Seq<char>)
    ensures
        crate::text::begins(skew_words(host, Skew::Older(v), local), host + " runs cctop "@ + v@ + ", older than this "@ + local),
        crate::text::begins(skew_words(host, Skew::Newer(v), local), host + " runs cctop "@ + v@ + ", newer than this "@ + local),
        crate::text::begins(skew_words(host, Skew::Missing, local), host + " has no cctop"@),
{
    let a = skew_words(host, Skew::Older(v), local);
    let x = host + " runs cctop "@ + v@ + ", older than this "@ + local;
    assert(a.take(x.len() as int) =~= x);
    let b = skew_words(host, Skew::Newer(v), local);
    let y = host + " runs cctop "@ + v@ + ", newer than this "@ + local;
    assert(b.take(y.len() as int) =~= y);
    reveal_strlit(" has no cctop");
    reveal_strlit(" has no cctop where ssh looks — install it there, or name the binary with --host ");
    let c = skew_words(host, Skew::Missing, local);
    let z = host + " has no cctop"@;
    assert(c.take(z.len() as int) =~= z);
}

/// A conflict is said by the end of the first file's path, how many more there are, and
/// how many agents have written them.
pub proof fn a_conflict_counts_its_files(first: Seq<char>, files: nat, agents: nat)
    requires
        files >= 1,
    ensures
        files == 1 ==> conflict_words(first, files, agents) == "Conflict: ⚠ "@ + tail_of(first, 2) + " — "@ + dec(agents)
            + " agents have written it"@,
        files > 1 ==> conflict_words(first, files, agents) == "Conflict: ⚠ "@ + tail_of(first, 2) + (" +"@ + dec(
            (files - 1) as nat,
        ) + " more"@) + " — "@ + dec(agents) + " agents have written it"@,
{
    let head = "Conflict: ⚠ "@ + tail_of(first, 2);
    assert(head + Seq::<char>::empty() =~= head);
}

/// Each row is marked with how its own agent overlaps, and a row whose agent does not is
/// not marked.
pub proof fn a_row_is_marked_with_its_own_overlap(app: App, found: KeyMap<Collision>, after: App, i: int)
    requires
        app.contested_by(found, after),
        0 <= i < app.sessions@.len(),
    ensures
        found.at(key_of(app.sessions@[i])) matches Some(c) ==> after.sessions@[i].conflict == Some(c.level),
        found.at(key_of(app.sessions@[i])) is None ==> after.sessions@[i].conflict is None,
        key_of(after.sessions@[i]) == key_of(app.sessions@[i]),
{
    assert(after.sessions@[i] == (Session {
        conflict: overlap_in(found, key_of(app.sessions@[i])),
        ..app.sessions@[i]
    }));
}

} // verus!
