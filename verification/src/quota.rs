//! How much of an account's quota is left, as the pane borders and the Limits
//! panel say it.

use vstd::prelude::*;

use crate::model::Names;
use crate::styled::{blank, line_of, nothing, Ink, Line, LineView, Text};
use crate::figures::{digits, last_digits};
use crate::text::{begins, cat, chars_of, count, dec, decimal, join, joined, pad_left, repeat, right_in, same, string_between, times, words, white, is_white};

verus! {

/// A window a quota is counted over.
pub struct Window {
    pub label: String,
    pub pct: u32,
    /// How long it is, in seconds.
    pub duration: Option<u64>,
    /// When it begins anew, in seconds since 1970.
    pub resets_at: Option<i64>,
}

/// What is known of an account's quota.
pub struct ProviderQuota {
    pub plan: Option<String>,
    pub windows: Vec<Window>,
    pub limit_reached: bool,
}

/// How asking for a quota went.
pub enum ProviderStatus {
    Pending,
    NotSignedIn,
    ApiBilling,
    Expired,
    RateLimited { retry_at: Option<i64> },
    Unavailable(String),
    Known(ProviderQuota),
}

/// Where an account's credentials are.
#[derive(Debug, Clone, Copy, PartialEq, Eq, Structural)]
pub enum AccountSource {
    Directory,
    Token,
}

/// An account's quota.
pub struct ProfileQuota {
    pub profile: String,
    pub source: AccountSource,
    pub status: ProviderStatus,
}

/// Every account's quota. The first of a harness's accounts is the one it would
/// use unasked.
pub struct Quota {
    pub names: Names,
    pub claude: Vec<ProfileQuota>,
    pub codex: Vec<ProfileQuota>,
}

/// How much of a quota fits. Rather than cut a number, whole pieces are dropped:
/// the countdowns first, then the labels.
#[derive(Debug, Clone, Copy, PartialEq, Eq, Structural)]
pub enum QuotaDetail {
    Full,
    NoResets,
    PctOnly,
}

/// How long it is until `at`, in hours and minutes, where it is ahead.
pub open spec fn countdown(at: Option<i64>, now: i64) -> Seq<char> {
    match at {
        Some(at) => if at - now > 0 {
            let left = (at - now) as nat;
            " "@ + dec(left / 3600) + "h"@ + digits(left % 3600 / 60, 2) + "m"@
        } else {
            ""@
        },
        None => ""@,
    }
}

fn countdown_of(at: Option<i64>, now: i64) -> (r: String)
    ensures
        r@ == countdown(at, now),
{
    match at {
        Some(at) => {
            let left: i128 = at as i128 - now as i128;
            if left > 0 {
                let left: u128 = left as u128;
                let mut s = cat(" ", decimal(left / 3600).as_str());
                s.append("h");
                let minutes: u128 = left % 3600 / 60;
                s.append(last_digits(minutes, 2).as_str());
                s.append("m");
                s
            } else {
                "".to_owned()
            }
        },
        None => "".to_owned(),
    }
}

/// One window, compacted.
pub open spec fn window_text(w: Window, now: i64, detail: QuotaDetail) -> Seq<char> {
    match detail {
        QuotaDetail::PctOnly => dec(w.pct as nat) + "%"@,
        QuotaDetail::NoResets => w.label@ + " "@ + dec(w.pct as nat) + "%"@,
        QuotaDetail::Full => w.label@ + " "@ + dec(w.pct as nat) + "%"@ + countdown(w.resets_at, now),
    }
}

fn window_text_of(w: &Window, now: i64, detail: QuotaDetail) -> (r: String)
    ensures
        r@ == window_text(*w, now, detail),
{
    let mut pct = decimal(w.pct as u128);
    match detail {
        QuotaDetail::PctOnly => {
            pct.append("%");
            pct
        },
        QuotaDetail::NoResets => {
            let mut s = cat(w.label.as_str(), " ");
            s.append(pct.as_str());
            s.append("%");
            s
        },
        QuotaDetail::Full => {
            let mut s = cat(w.label.as_str(), " ");
            s.append(pct.as_str());
            s.append("%");
            s.append(countdown_of(w.resets_at, now).as_str());
            s
        },
    }
}

/// The first `n` windows, compacted, with `sep` between them.
pub open spec fn windows_text(windows: Seq<Window>, now: i64, detail: QuotaDetail, sep: Seq<char>, n: int) -> Seq<char>
    decreases n,
{
    if n <= 0 {
        ""@
    } else if n == 1 {
        window_text(windows[0], now, detail)
    } else {
        windows_text(windows, now, detail, sep, n - 1) + sep + window_text(windows[n - 1], now, detail)
    }
}

/// One account's windows, compacted; nothing where they are not known.
pub open spec fn suffix_text(status: ProviderStatus, now: i64, detail: QuotaDetail) -> Seq<char> {
    match status {
        ProviderStatus::Known(q) => windows_text(
            q.windows@,
            now,
            detail,
            if detail == QuotaDetail::PctOnly {
                "/"@
            } else {
                " · "@
            },
            q.windows@.len() as int,
        ),
        _ => ""@,
    }
}

/// One account's windows, compacted to `detail`.
pub fn quota_suffix(status: &ProviderStatus, now: i64, detail: QuotaDetail) -> (r: String)
    ensures
        r@ == suffix_text(*status, now, detail),
{
    let q = match status {
        ProviderStatus::Known(q) => q,
        _ => {
            return "".to_owned();
        },
    };
    let sep = if detail == QuotaDetail::PctOnly {
        "/"
    } else {
        " · "
    };
    let mut s = "".to_owned();
    let mut i: usize = 0;
    while i < q.windows.len()
        invariant
            i <= q.windows@.len(),
            s@ == windows_text(q.windows@, now, detail, sep@, i as int),
        decreases q.windows@.len() - i,
    {
        let one = window_text_of(&q.windows[i], now, detail);
        if i == 0 {
            s = one;
        } else {
            s.append(sep);
            s.append(one.as_str());
        }
        i += 1;
    }
    s
}

/// An ASCII capital in lower case.
pub open spec fn lower_ascii(c: char) -> char {
    if 'A' <= c <= 'Z' {
        ((c as u8) + 32) as char
    } else {
        c
    }
}

/// Where the first word of `s` from `i` on begins.
pub open spec fn word_start(s: Seq<char>, i: int) -> int
    decreases s.len() - i,
{
    if i < 0 || i >= s.len() || !white(s[i]) {
        i
    } else {
        word_start(s, i + 1)
    }
}

/// Whether the first word of a label begins with `word`, whatever its case.
pub open spec fn label_begins(label: Seq<char>, word: Seq<char>) -> bool {
    let i = word_start(label, 0);
    &&& i + word.len() <= label.len()
    &&& forall|k: int| 0 <= k < word.len() ==> lower_ascii(#[trigger] label[i + k]) == word[k]
    &&& forall|k: int| 0 <= k < word.len() ==> !white(#[trigger] label[i + k])
}

fn lower_letter(c: char) -> (r: char)
    ensures
        r == lower_ascii(c),
{
    if 'A' <= c && c <= 'Z' {
        ((c as u8) + 32) as char
    } else {
        c
    }
}

fn label_begins_with(label: &str, word: &str) -> (r: bool)
    ensures
        r == label_begins(label@, word@),
{
    let v = chars_of(label);
    let w = chars_of(word);
    let mut i: usize = 0;
    while i < v.len() && is_white(v[i])
        invariant
            i <= v@.len(),
            word_start(v@, 0) == word_start(v@, i as int),
        decreases v@.len() - i,
    {
        i += 1;
    }
    let n: usize = v.len();
    let m: usize = w.len();
    if n - i < m {
        return false;
    }
    let mut k: usize = 0;
    while k < m
        invariant
            k <= m,
            m == w@.len(),
            n == v@.len(),
            i + m <= n,
            i == word_start(v@, 0),
            v@ == label@,
            w@ == word@,
            forall|j: int| 0 <= j < k ==> lower_ascii(#[trigger] v@[i + j]) == w@[j],
            forall|j: int| 0 <= j < k ==> !white(#[trigger] v@[i + j]),
        decreases m - k,
    {
        let c = v[i + k];
        if is_white(c) || lower_letter(c) != w[k] {
            assert(white(v@[i + k]) || lower_ascii(v@[i + k]) != w@[k as int]);
            return false;
        }
        k += 1;
    }
    true
}

/// The account a pane runs as: the one it names, and the first where it names
/// none.
pub open spec fn account_of(accounts: Seq<ProfileQuota>, profile: Option<Seq<char>>, i: int) -> Option<int>
    decreases accounts.len() - i,
{
    if i < 0 || i >= accounts.len() {
        None
    } else {
        match profile {
            None => Some(i),
            Some(p) => if accounts[i].profile@ == p {
                Some(i)
            } else {
                account_of(accounts, profile, i + 1)
            },
        }
    }
}

fn find_account<'a>(accounts: &'a Vec<ProfileQuota>, profile: Option<&str>) -> (r: Option<&'a ProfileQuota>)
    ensures
        match (r, account_of(accounts@, maybe(profile), 0)) {
            (Some(a), Some(i)) => *a == accounts@[i],
            (None, None) => true,
            _ => false,
        },
{
    let mut i: usize = 0;
    while i < accounts.len()
        invariant
            i <= accounts@.len(),
            account_of(accounts@, maybe(profile), 0) == account_of(accounts@, maybe(profile), i as int),
        decreases accounts@.len() - i,
    {
        match profile {
            None => {
                return Some(&accounts[i]);
            },
            Some(p) => {
                if same(accounts[i].profile.as_str(), p) {
                    return Some(&accounts[i]);
                }
            },
        }
        i += 1;
    }
    None
}

/// A text that may be missing, as a sequence.
pub open spec fn maybe(t: Option<&str>) -> Option<Seq<char>> {
    match t {
        Some(s) => Some(s@),
        None => None,
    }
}

/// The status of the account a pane runs as.
pub open spec fn pane_status(label: Seq<char>, profile: Option<Seq<char>>, quota: Quota) -> Option<ProviderStatus> {
    let accounts = if label_begins(label, quota.names.command@) {
        Some(quota.claude@)
    } else if label_begins(label, "codex"@) {
        Some(quota.codex@)
    } else {
        None
    };
    match accounts {
        None => None,
        Some(list) => match account_of(list, profile, 0) {
            Some(i) => Some(list[i].status),
            None => None,
        },
    }
}

/// A pane that names a profile is shown the first account of that name and no other,
/// and none where there is none; one that names none is shown the first account.
pub proof fn a_pane_is_shown_its_own_account(accounts: Seq<ProfileQuota>, profile: Option<Seq<char>>, i: int)
    requires
        0 <= i <= accounts.len(),
    ensures
        match account_of(accounts, profile, i) {
            Some(k) => {
                &&& i <= k < accounts.len()
                &&& profile matches Some(p) ==> accounts[k].profile@ == p && forall|j: int|
                    i <= j < k ==> (#[trigger] accounts[j]).profile@ != p
                &&& profile is None ==> k == i
            },
            None => {
                &&& profile matches Some(p) ==> forall|j: int|
                    i <= j < accounts.len() ==> (#[trigger] accounts[j]).profile@ != p
                &&& profile is None ==> i == accounts.len()
            },
        },
    decreases accounts.len() - i,
{
    if i < accounts.len() && profile is Some && accounts[i].profile@ != profile->0 {
        a_pane_is_shown_its_own_account(accounts, profile, i + 1);
    }
}

proof fn nothing_before_a_word(label: Seq<char>, i: int)
    requires
        0 <= i < label.len(),
        !white(label[i]),
    ensures
        word_start(label, i) == i,
{
}

/// A pane's quota is that of an account of the harness its command names, under the
/// profile it names: no other account's status is shown on its border.
pub proof fn a_border_shows_the_panes_account(label: Seq<char>, profile: Seq<char>, quota: Quota)
    ensures
        pane_status(label, Some(profile), quota) matches Some(status) ==> {
            ||| exists|k: int|
                #![trigger quota.claude@[k]]
                0 <= k < quota.claude@.len() && quota.claude@[k].profile@ == profile && quota.claude@[k].status == status
            ||| exists|k: int|
                #![trigger quota.codex@[k]]
                0 <= k < quota.codex@.len() && quota.codex@[k].profile@ == profile && quota.codex@[k].status == status
        },
        (forall|k: int| 0 <= k < quota.claude@.len() ==> (#[trigger] quota.claude@[k]).profile@ != profile) && (forall|
            k: int,
        |
            0 <= k < quota.codex@.len() ==> (#[trigger] quota.codex@[k]).profile@ != profile) ==> pane_status(
            label,
            Some(profile),
            quota,
        ) is None,
{
    a_pane_is_shown_its_own_account(quota.claude@, Some(profile), 0);
    a_pane_is_shown_its_own_account(quota.codex@, Some(profile), 0);
}

/// A command that begins with the first harness's word is that harness's, and the
/// accounts looked at are its own; `codex` is the other's.
pub proof fn a_command_names_its_harness(rest: Seq<char>, profile: Option<Seq<char>>, quota: Quota)
    ensures
        quota.names.command@.len() > 0 && (forall|i: int|
            0 <= i < quota.names.command@.len() ==> 'a' <= #[trigger] quota.names.command@[i] <= 'z') ==> pane_status(
            quota.names.command@ + rest,
            profile,
            quota,
        ) == (match account_of(quota.claude@, profile, 0) {
            Some(k) => Some(quota.claude@[k].status),
            None => None,
        }),
        !label_begins("codex"@ + rest, quota.names.command@) ==> pane_status("codex"@ + rest, profile, quota) == (
        match account_of(quota.codex@, profile, 0) {
            Some(k) => Some(quota.codex@[k].status),
            None => None,
        }),
{
    let word = quota.names.command@;
    if word.len() > 0 && forall|i: int| 0 <= i < word.len() ==> 'a' <= #[trigger] word[i] <= 'z' {
        assert('a' <= word[0] <= 'z');
        let label = word + rest;
        assert(label[0] == word[0]);
        nothing_before_a_word(label, 0);
        assert forall|k: int| 0 <= k < word.len() implies lower_ascii(#[trigger] label[0 + k]) == word[k] && !white(
            label[0 + k],
        ) by {
            assert('a' <= word[k] <= 'z');
        }
        assert(label_begins(label, word));
    }
    reveal_strlit("codex");
    let label = "codex"@ + rest;
    assert(label[0] == 'c');
    nothing_before_a_word(label, 0);
    assert forall|k: int| 0 <= k < 5 implies lower_ascii(#[trigger] label[0 + k]) == "codex"@[k] && !white(label[0 + k]) by {
        assert(label[k] == "codex"@[k]);
    }
    assert(label_begins(label, "codex"@));
}

/// Whether a quota's text fits into `budget` with a cell on either side.
pub open spec fn fits(text: Seq<char>, budget: u16) -> bool {
    text.len() + 2 <= budget
}

/// The quota to put on a pane's border, at the widest detail that fits.
pub open spec fn border_text(status: ProviderStatus, now: i64, budget: u16) -> Option<Seq<char>> {
    let full = suffix_text(status, now, QuotaDetail::Full);
    let fewer = suffix_text(status, now, QuotaDetail::NoResets);
    let least = suffix_text(status, now, QuotaDetail::PctOnly);
    if full.len() == 0 {
        None
    } else if fits(full, budget) {
        Some(" "@ + full + " "@)
    } else if fewer.len() == 0 {
        None
    } else if fits(fewer, budget) {
        Some(" "@ + fewer + " "@)
    } else if least.len() == 0 {
        None
    } else if fits(least, budget) {
        Some(" "@ + least + " "@)
    } else {
        None
    }
}

fn bordered(text: &str) -> (r: String)
    ensures
        r@ == " "@ + text@ + " "@,
{
    let mut s = cat(" ", text);
    s.append(" ");
    s
}

/// The quota to put on a pane's border, at the widest detail fitting `budget`.
///
/// Quota belongs to the account, not to the pane, but a pane is where you are
/// looking when it matters. Which account comes from the pane's command: a fresh
/// pane has no transcript yet. A pane running as one account is not shown
/// another's budget.
pub fn pane_quota(label: &str, profile: Option<&str>, quota: &Quota, now: i64, budget: u16) -> (r: Option<String>)
    ensures
        match pane_status(label@, maybe(profile), *quota) {
            None => r is None,
            Some(status) => match (r, border_text(status, now, budget)) {
                (Some(a), Some(b)) => a@ == b,
                (None, None) => true,
                _ => false,
            },
        },
{
    let account = if label_begins_with(label, quota.names.command.as_str()) {
        find_account(&quota.claude, profile)
    } else if label_begins_with(label, "codex") {
        find_account(&quota.codex, profile)
    } else {
        None
    };
    let status = match account {
        Some(a) => &a.status,
        None => {
            return None;
        },
    };
    let room: u128 = budget as u128;
    let full = quota_suffix(status, now, QuotaDetail::Full);
    let n: usize = count(full.as_str());
    if n == 0 {
        return None;
    }
    if n as u128 + 2 <= room {
        return Some(bordered(full.as_str()));
    }
    let fewer = quota_suffix(status, now, QuotaDetail::NoResets);
    let n: usize = count(fewer.as_str());
    if n == 0 {
        return None;
    }
    if n as u128 + 2 <= room {
        return Some(bordered(fewer.as_str()));
    }
    let least = quota_suffix(status, now, QuotaDetail::PctOnly);
    let n: usize = count(least.as_str());
    if n == 0 {
        return None;
    }
    if n as u128 + 2 <= room {
        return Some(bordered(least.as_str()));
    }
    None
}

/// What is put on a border fits it.
pub proof fn a_border_is_not_overrun(status: ProviderStatus, now: i64, budget: u16)
    ensures
        border_text(status, now, budget) matches Some(t) ==> t.len() <= budget,
{
    reveal_strlit(" ");
}

/// How far into its window `now` is, in seconds, a second at the least.
pub open spec fn elapsed(w: Window, now: i64) -> int
    recommends
        w.duration is Some,
        w.resets_at is Some,
{
    let length = w.duration->0 as int;
    let gone = now - (w.resets_at->0 - length);
    if gone < 1 {
        1
    } else if gone > length {
        length
    } else {
        gone
    }
}

/// The ink of a window: by whether it is spent faster than evenly across its
/// length, a tenth over being worth noticing and half over unmistakable. By how
/// much is spent where its length or its end is not known.
pub open spec fn window_ink(w: Window, now: i64) -> Ink {
    match (w.duration, w.resets_at) {
        (Some(length), Some(_)) => {
            let spent = w.pct * length * 10;
            let even = 100 * elapsed(w, now);
            if spent >= even * 15 {
                Ink::High
            } else if spent >= even * 11 {
                Ink::Mid
            } else {
                Ink::Low
            }
        },
        _ => if w.pct >= 90 {
            Ink::High
        } else if w.pct >= 70 {
            Ink::Mid
        } else {
            Ink::Low
        },
    }
}

impl Window {
    /// Whether the window lasts a second at the least, where both its length and
    /// its end are known.
    pub open spec fn can_pace(&self) -> bool {
        (self.duration is Some && self.resets_at is Some) ==> self.duration->0 >= 1
    }

    /// Whether the window lasts a second at the least, where both its length and
    /// its end are known.
    pub fn is_paced(&self) -> (r: bool)
        ensures
            r == self.can_pace(),
    {
        match (self.duration, self.resets_at) {
            (Some(length), Some(_)) => length >= 1,
            _ => true,
        }
    }
}

/// Colour quota usage by whether it is being spent faster than an even budget
/// across its window.
pub fn quota_color(w: &Window, now: i64) -> (r: Ink)
    requires
        w.can_pace(),
    ensures
        r == window_ink(*w, now),
{
    match (w.duration, w.resets_at) {
        (Some(length), Some(reset)) => {
            let length: i128 = length as i128;
            let gone: i128 = now as i128 - (reset as i128 - length);
            let gone: i128 = if gone < 1 {
                1
            } else if gone > length {
                length
            } else {
                gone
            };
            assert(0 <= w.pct * length <= 0x1_0000_0000 * 0x1_0000_0000_0000_0000) by (nonlinear_arith)
                requires
                    0 <= w.pct < 0x1_0000_0000,
                    0 <= length < 0x1_0000_0000_0000_0000,
            ;
            let spent: i128 = w.pct as i128 * length * 10;
            let even: i128 = 100 * gone;
            if spent >= even * 15 {
                Ink::High
            } else if spent >= even * 11 {
                Ink::Mid
            } else {
                Ink::Low
            }
        },
        _ => {
            if w.pct >= 90 {
                Ink::High
            } else if w.pct >= 70 {
                Ink::Mid
            } else {
                Ink::Low
            }
        },
    }
}

/// How many of a meter's eight cells are filled.
pub open spec fn meter_cells(pct: u32) -> int {
    if pct * 8 / 100 > 8 {
        8
    } else {
        pct * 8 / 100
    }
}

/// One window of the Limits panel behind what the line says.
pub open spec fn with_window(l: LineView, w: Window, now: i64) -> LineView {
    let ink = window_ink(w, now);
    let l = l.with(w.label@ + " "@, Ink::Label).with(right_in(dec(w.pct as nat), 3) + "% "@, ink).with(
        times('━', meter_cells(w.pct)),
        ink,
    ).with(times('─', 8 - meter_cells(w.pct)), Ink::Gray(244));
    let l = if w.resets_at matches Some(at) && at - now > 0 {
        l.with(countdown(w.resets_at, now), Ink::Dim)
    } else {
        l
    };
    l.with("  "@, Ink::Plain)
}

/// The first `n` windows of the Limits panel behind what the line says.
pub open spec fn with_windows(l: LineView, windows: Seq<Window>, now: i64, n: int) -> LineView
    decreases n,
{
    if n <= 0 {
        l
    } else {
        with_window(with_windows(l, windows, now, n - 1), windows[n - 1], now)
    }
}

fn put_window(l: &mut Line, w: &Window, now: i64)
    requires
        w.can_pace(),
    ensures
        final(l)@ == with_window(old(l)@, *w, now),
{
    let ink = quota_color(w, now);
    l.put(cat(w.label.as_str(), " ").as_str(), Ink::Label);
    l.put(cat(pad_left(decimal(w.pct as u128).as_str(), 3).as_str(), "% ").as_str(), ink);
    let raw: u64 = w.pct as u64 * 8 / 100;
    let full: usize = if raw > 8 {
        8
    } else {
        raw as usize
    };
    l.put(repeat('━', full).as_str(), ink);
    l.put(repeat('─', 8 - full).as_str(), Ink::Gray(244));
    match w.resets_at {
        Some(at) => {
            if at > now {
                l.put(countdown_of(w.resets_at, now).as_str(), Ink::Dim);
            }
        },
        None => {},
    }
    l.put("  ", Ink::Plain);
}

/// What an account whose sign-in has run out is told. A token account has no
/// login to renew.
pub open spec fn renewal(source: AccountSource, command: Seq<char>) -> (Seq<char>, Seq<char>) {
    if source == AccountSource::Token {
        ("expired — "@, "cctop --add-account"@)
    } else {
        ("sign-in expired — "@, command + " login"@)
    }
}

/// An account's column of the Limits panel. Each way of failing says something
/// else: an expired sign-in needs the user to act, a rate limit clears by itself.
pub open spec fn account_line(name: Seq<char>, command: Seq<char>, account: ProfileQuota, now: i64) -> LineView {
    let l = blank().with(name + " "@, Ink::Label);
    match account.status {
        ProviderStatus::Pending => l.with("checking…"@, Ink::Dim),
        ProviderStatus::NotSignedIn => l.with("not signed in"@, Ink::Dim),
        ProviderStatus::ApiBilling => l.with("API billing, no limits"@, Ink::Dim),
        ProviderStatus::Expired => l.with(renewal(account.source, command).0, Ink::Mid).with(
            renewal(account.source, command).1,
            Ink::Value,
        ),
        ProviderStatus::RateLimited { retry_at } => {
            let l = l.with("rate limited"@, Ink::Mid);
            if retry_at matches Some(at) && at - now > 0 {
                let left = (retry_at->0 - now) as nat;
                l.with(" — retry in "@ + dec(left / 60) + "m"@ + digits(left % 60, 2) + "s"@, Ink::Dim)
            } else {
                l
            }
        },
        ProviderStatus::Unavailable(why) => l.with("unavailable ("@ + why@ + ")"@, Ink::Dim),
        ProviderStatus::Known(q) => {
            let l = match q.plan {
                Some(p) => l.with("("@ + p@ + ") "@, Ink::Dim),
                None => l,
            };
            let l = with_windows(l, q.windows@, now, q.windows@.len() as int);
            if q.limit_reached {
                l.with("⚠ limit"@, Ink::High)
            } else {
                l
            }
        },
    }
}

/// Whether every window of a quota can be paced, or need not be.
pub open spec fn paced(status: ProviderStatus) -> bool {
    status matches ProviderStatus::Known(q) ==> forall|i: int|
        0 <= i < q.windows@.len() ==> (#[trigger] q.windows@[i]).can_pace()
}

/// An account's column of the Limits panel.
pub fn account_column(name: &str, command: &str, account: &ProfileQuota, now: i64) -> (r: Line)
    requires
        paced(account.status),
    ensures
        r@ == account_line(name@, command@, *account, now),
{
    let mut l = line_of(cat(name, " ").as_str(), Ink::Label);
    match &account.status {
        ProviderStatus::Pending => {
            l.put("checking…", Ink::Dim);
        },
        ProviderStatus::NotSignedIn => {
            l.put("not signed in", Ink::Dim);
        },
        ProviderStatus::ApiBilling => {
            l.put("API billing, no limits", Ink::Dim);
        },
        ProviderStatus::Expired => {
            if account.source == AccountSource::Token {
                l.put("expired — ", Ink::Mid);
                l.put("cctop --add-account", Ink::Value);
            } else {
                l.put("sign-in expired — ", Ink::Mid);
                l.put(cat(command, " login").as_str(), Ink::Value);
            }
        },
        ProviderStatus::RateLimited { retry_at } => {
            l.put("rate limited", Ink::Mid);
            match *retry_at {
                Some(at) => {
                    let left: i128 = at as i128 - now as i128;
                    if left > 0 {
                        let left: u128 = left as u128;
                        let mut s = cat(" — retry in ", decimal(left / 60).as_str());
                        s.append("m");
                        s.append(last_digits(left % 60, 2).as_str());
                        s.append("s");
                        l.put(s.as_str(), Ink::Dim);
                    }
                },
                None => {},
            }
        },
        ProviderStatus::Unavailable(why) => {
            let mut s = cat("unavailable (", why.as_str());
            s.append(")");
            l.put(s.as_str(), Ink::Dim);
        },
        ProviderStatus::Known(q) => {
            match &q.plan {
                Some(p) => {
                    let mut s = cat("(", p.as_str());
                    s.append(") ");
                    l.put(s.as_str(), Ink::Dim);
                },
                None => {},
            }
            let ghost before = l@;
            let mut i: usize = 0;
            while i < q.windows.len()
                invariant
                    i <= q.windows@.len(),
                    forall|i: int|
                        0 <= i < q.windows@.len() ==> (#[trigger] q.windows@[i]).can_pace(),
                    l@ == with_windows(before, q.windows@, now, i as int),
                decreases q.windows@.len() - i,
            {
                assert(q.windows@[i as int].can_pace());
                put_window(&mut l, &q.windows[i], now);
                i += 1;
            }
            if q.limit_reached {
                l.put("⚠ limit", Ink::High);
            }
        },
    }
    l
}

/// An account's name. Only the others are told apart: on nearly every machine
/// there are none.
pub open spec fn account_name(harness: Seq<char>, account: ProfileQuota, i: int) -> Seq<char> {
    if i == 0 {
        harness
    } else {
        harness + " ("@ + account.profile@ + ")"@
    }
}

/// The columns of a harness's first `n` accounts.
pub open spec fn columns_of(
    harness: Seq<char>,
    command: Seq<char>,
    accounts: Seq<ProfileQuota>,
    now: i64,
    n: int,
) -> Seq<LineView>
    decreases n,
{
    if n <= 0 {
        nothing()
    } else {
        columns_of(harness, command, accounts, now, n - 1).push(
            account_line(account_name(harness, accounts[n - 1], n - 1), command, accounts[n - 1], now),
        )
    }
}

fn put_columns(t: &mut Text, harness: &str, command: &str, accounts: &Vec<ProfileQuota>, now: i64)
    requires
        forall|i: int| 0 <= i < accounts@.len() ==> paced((#[trigger] accounts@[i]).status),
    ensures
        final(t)@ == old(t)@ + columns_of(harness@, command@, accounts@, now, accounts@.len() as int),
{
    let ghost was = t@;
    let mut i: usize = 0;
    assert(was + columns_of(harness@, command@, accounts@, now, 0) =~= was);
    while i < accounts.len()
        invariant
            i <= accounts@.len(),
            forall|i: int| 0 <= i < accounts@.len() ==> paced((#[trigger] accounts@[i]).status),
            t@ == was + columns_of(harness@, command@, accounts@, now, i as int),
        decreases accounts@.len() - i,
    {
        let name = if i == 0 {
            harness.to_owned()
        } else {
            let mut s = cat(harness, " (");
            s.append(accounts[i].profile.as_str());
            s.append(")");
            s
        };
        assert(paced(accounts@[i as int].status));
        t.push(account_column(name.as_str(), command, &accounts[i], now));
        assert(t@ =~= was + columns_of(harness@, command@, accounts@, now, i + 1));
        i += 1;
    }
}

/// The Limits panel: a column for each account, which is told about its own
/// harness whatever its name is.
pub fn limits(quota: &Quota, now: i64) -> (r: Text)
    requires
        forall|i: int| 0 <= i < quota.claude@.len() ==> paced((#[trigger] quota.claude@[i]).status),
        forall|i: int| 0 <= i < quota.codex@.len() ==> paced((#[trigger] quota.codex@[i]).status),
    ensures
        r@ == columns_of(
            quota.names.title@,
            quota.names.command@,
            quota.claude@,
            now,
            quota.claude@.len() as int,
        ) + columns_of(
            "Codex"@,
            "codex"@,
            quota.codex@,
            now,
            quota.codex@.len() as int,
        ),
{
    let mut t = Text::new();
    put_columns(&mut t, quota.names.title.as_str(), quota.names.command.as_str(), &quota.claude, now);
    assert(t@ =~= columns_of(
        quota.names.title@,
        quota.names.command@,
        quota.claude@,
        now,
        quota.claude@.len() as int,
    ));
    put_columns(&mut t, "Codex", "codex", &quota.codex, now);
    t
}

/// The share of the panel each of `n` columns gets, in percent.
pub fn column_share(n: usize) -> (r: u16)
    ensures
        r == 100int / (if n == 0 {
            1int
        } else {
            n as int
        }),
{
    if n == 0 {
        100
    } else if n > 100 {
        assert(100int / (n as int) == 0) by (nonlinear_arith)
            requires
                n > 100,
        ;
        0
    } else {
        100 / n as u16
    }
}

/// A window that begins anew in so many hours and minutes says so, and one that has
/// begun anew says nothing of it.
pub proof fn a_countdown_is_the_time_left(now: i64, at: i64, h: nat, m: nat, s: nat)
    requires
        m < 60,
        s < 60,
    ensures
        at == now + (h * 60 + m) * 60 + s && at > now ==> countdown(Some(at), now) == " "@ + dec(h) + "h"@ + digits(m, 2)
            + "m"@,
        at <= now ==> countdown(Some(at), now).len() == 0,
        countdown(None, now).len() == 0,
{
    reveal_strlit("");
    let left = (h * 60 + m) * 60 + s;
    assert(left / 3600 == h);
    assert(left % 3600 / 60 == m);
}

/// A window is told by its own name, its own share and its own countdown: what is left
/// out is left out whole.
pub proof fn a_window_is_told_whole(w: Window, now: i64)
    ensures
        window_text(w, now, QuotaDetail::Full) == w.label@ + " "@ + dec(w.pct as nat) + "%"@ + countdown(w.resets_at, now),
        window_text(w, now, QuotaDetail::Full) == window_text(w, now, QuotaDetail::NoResets) + countdown(w.resets_at, now),
        window_text(w, now, QuotaDetail::NoResets) == w.label@ + " "@ + window_text(w, now, QuotaDetail::PctOnly),
        crate::text::reading(window_text(w, now, QuotaDetail::PctOnly)) == w.pct,
        window_text(w, now, QuotaDetail::PctOnly).last() == '%',
{
    reveal_strlit("%");
    crate::text::a_number_reads_back(w.pct as nat);
    crate::text::only_digits_are_read(dec(w.pct as nat), "%"@);
    assert(window_text(w, now, QuotaDetail::NoResets) =~= w.label@ + " "@ + window_text(w, now, QuotaDetail::PctOnly));
}

proof fn a_window_stands_in_the_text(
    windows: Seq<Window>,
    now: i64,
    detail: QuotaDetail,
    sep: Seq<char>,
    n: int,
    i: int,
) -> (r: (Seq<char>, Seq<char>))
    requires
        0 <= i < n <= windows.len(),
    ensures
        windows_text(windows, now, detail, sep, n) == r.0 + window_text(windows[i], now, detail) + r.1,
    decreases n,
{
    let own = window_text(windows[i], now, detail);
    let empty = Seq::<char>::empty();
    if n == 1 {
        assert(windows_text(windows, now, detail, sep, n) =~= empty + own + empty);
        (empty, empty)
    } else if i == n - 1 {
        let before = windows_text(windows, now, detail, sep, n - 1) + sep;
        assert(windows_text(windows, now, detail, sep, n) =~= before + own + empty);
        (before, empty)
    } else {
        let (a, b) = a_window_stands_in_the_text(windows, now, detail, sep, n - 1, i);
        let after = b + (sep + window_text(windows[n - 1], now, detail));
        assert(windows_text(windows, now, detail, sep, n) =~= a + own + after);
        (a, after)
    }
}

/// Every window of an account is told, whatever is left out of each, and an account of
/// which nothing is known tells nothing.
pub proof fn every_window_is_told(status: ProviderStatus, now: i64, detail: QuotaDetail, i: int)
    ensures
        status matches ProviderStatus::Known(q) ==> (0 <= i < q.windows@.len() ==> exists|a: Seq<char>, b: Seq<char>|
            suffix_text(status, now, detail) == #[trigger] (a + window_text(q.windows@[i], now, detail) + b)),
        !(status is Known) ==> suffix_text(status, now, detail).len() == 0,
{
    reveal_strlit("");
    if let ProviderStatus::Known(q) = status {
        if 0 <= i < q.windows@.len() {
            let sep = if detail == QuotaDetail::PctOnly {
                "/"@
            } else {
                " · "@
            };
            let (a, b) = a_window_stands_in_the_text(q.windows@, now, detail, sep, q.windows@.len() as int, i);
            assert(suffix_text(status, now, detail) == a + window_text(q.windows@[i], now, detail) + b);
        }
    }
}

/// A border is told as much as fits: nothing is left out for want of room that there
/// was, and where not even the shares fit there is nothing.
pub proof fn a_border_is_told_all_that_fits(status: ProviderStatus, now: i64, budget: u16)
    requires
        status is Known,
        status->Known_0.windows@.len() > 0,
    ensures
        ({
            let full = suffix_text(status, now, QuotaDetail::Full);
            let fewer = suffix_text(status, now, QuotaDetail::NoResets);
            let least = suffix_text(status, now, QuotaDetail::PctOnly);
            match border_text(status, now, budget) {
                Some(t) => {
                    ||| t == " "@ + full + " "@
                    ||| t == " "@ + fewer + " "@ && full.len() + 2 > budget
                    ||| t == " "@ + least + " "@ && full.len() + 2 > budget && fewer.len() + 2 > budget
                },
                None => full.len() + 2 > budget && fewer.len() + 2 > budget && least.len() + 2 > budget,
            }
        }),
{
    every_window_is_told(status, now, QuotaDetail::Full, 0);
    every_window_is_told(status, now, QuotaDetail::NoResets, 0);
    every_window_is_told(status, now, QuotaDetail::PctOnly, 0);
    reveal_strlit("%");
}

/// A window spent half over what would be even by now is shown as high, one spent a
/// tenth over as middling, and one spent evenly or slower as low. What would be even is
/// the share of the window that has gone by.
pub proof fn pace_decides_the_colour(w: Window, now: i64, gone: int)
    requires
        w.duration is Some,
        w.resets_at is Some,
        1 <= gone <= w.duration->0,
        now == w.resets_at->0 - w.duration->0 + gone,
    ensures
        w.pct * w.duration->0 * 2 >= 300 * gone <==> window_ink(w, now) == Ink::High,
        w.pct * w.duration->0 * 10 < 1100 * gone <==> window_ink(w, now) == Ink::Low,
        w.pct * w.duration->0 <= 100 * gone ==> window_ink(w, now) == Ink::Low,
        window_ink(w, now) == Ink::High || window_ink(w, now) == Ink::Mid || window_ink(w, now) == Ink::Low,
{
}

/// Of two windows that are alike, the one that is spent more is shown no cooler, also
/// where it is not known how long they are.
pub proof fn more_spent_is_no_cooler(a: Window, b: Window, now: i64)
    requires
        a.duration == b.duration,
        a.resets_at == b.resets_at,
        a.pct <= b.pct,
    ensures
        window_ink(a, now) == Ink::High ==> window_ink(b, now) == Ink::High,
        window_ink(b, now) == Ink::Low ==> window_ink(a, now) == Ink::Low,
        a.duration is None || a.resets_at is None ==> {
            &&& window_ink(a, now) == Ink::High <==> a.pct >= 90
            &&& window_ink(a, now) == Ink::Low <==> a.pct < 70
        },
{
    if a.duration is Some && a.resets_at is Some {
        let length = a.duration->0 as int;
        assert(a.pct * length <= b.pct * length) by (nonlinear_arith)
            requires
                a.pct <= b.pct,
                length >= 0,
        ;
    }
}

/// A meter of eight cells has one for every whole eighth that is spent, and all of
/// them from the whole on.
pub proof fn a_cell_is_an_eighth(pct: u32)
    ensures
        0 <= meter_cells(pct) <= 8,
        pct >= 100 <==> meter_cells(pct) == 8,
        pct < 100 ==> meter_cells(pct) * 100 <= pct * 8 < (meter_cells(pct) + 1) * 100,
{
}

proof fn windows_follow(l: LineView, windows: Seq<Window>, now: i64, n: int)
    requires
        0 <= n <= windows.len(),
    ensures
        with_windows(l, windows, now, n).spans.len() >= l.spans.len() + 5 * n,
        with_windows(l, windows, now, n).spans.take(l.spans.len() as int) == l.spans,
    decreases n,
{
    if n > 0 {
        windows_follow(l, windows, now, n - 1);
        assert(with_windows(l, windows, now, n).spans.take(l.spans.len() as int) =~= l.spans);
    } else {
        assert(l.spans.take(l.spans.len() as int) =~= l.spans);
    }
}

proof fn a_windows_spans_stay(l: LineView, windows: Seq<Window>, now: i64, n: int, i: int) -> (at: int)
    requires
        0 <= i < n <= windows.len(),
    ensures
        ({
            let spans = with_windows(l, windows, now, n).spans;
            let w = windows[i];
            &&& 0 <= at
            &&& at + 5 <= spans.len()
            &&& spans[at].text == w.label@ + " "@
            &&& spans[at + 1].text == right_in(dec(w.pct as nat), 3) + "% "@
            &&& spans[at + 1].ink == window_ink(w, now)
            &&& spans[at + 2].text == times('━', meter_cells(w.pct))
            &&& spans[at + 2].ink == window_ink(w, now)
            &&& spans[at + 3].text == times('─', 8 - meter_cells(w.pct))
            &&& w.resets_at is Some && w.resets_at->0 > now ==> at + 6 <= spans.len() && spans[at + 4].text == countdown(
                w.resets_at,
                now,
            )
        }),
    decreases n,
{
    if i < n - 1 {
        a_windows_spans_stay(l, windows, now, n - 1, i)
    } else {
        with_windows(l, windows, now, n - 1).spans.len() as int
    }
}

/// In an account's column every window has its own name, share, colour, meter and
/// countdown, one behind the other.
pub proof fn a_column_has_every_window(name: Seq<char>, command: Seq<char>, account: ProfileQuota, now: i64, i: int)
    requires
        account.status is Known,
        0 <= i < account.status->Known_0.windows@.len(),
    ensures
        exists|at: int|
            #![trigger account_line(name, command, account, now).spans[at]]
            {
                let spans = account_line(name, command, account, now).spans;
                let w = account.status->Known_0.windows@[i];
                &&& 0 <= at
                &&& at + 5 <= spans.len()
                &&& spans[at].text == w.label@ + " "@
                &&& spans[at + 1].text == right_in(dec(w.pct as nat), 3) + "% "@
                &&& spans[at + 1].ink == window_ink(w, now)
                &&& spans[at + 2].text == times('━', meter_cells(w.pct))
                &&& spans[at + 2].ink == window_ink(w, now)
                &&& spans[at + 3].text == times('─', 8 - meter_cells(w.pct))
                &&& w.resets_at is Some && w.resets_at->0 > now ==> spans[at + 4].text == countdown(w.resets_at, now)
            },
        account_line(name, command, account, now).spans[0].text == name + " "@,
        account.status->Known_0.limit_reached <==> account_line(name, command, account, now).spans.last().ink == Ink::High
            && account_line(name, command, account, now).spans.last().text == "⚠ limit"@,
{
    let q = account.status->Known_0;
    let l = blank().with(name + " "@, Ink::Label);
    let l = match q.plan {
        Some(p) => l.with("("@ + p@ + ") "@, Ink::Dim),
        None => l,
    };
    let n = q.windows@.len() as int;
    windows_follow(l, q.windows@, now, n);
    let at = a_windows_spans_stay(l, q.windows@, now, n, i);
    let all = account_line(name, command, account, now).spans;
    let some = with_windows(l, q.windows@, now, n).spans;
    assert(all[at] == some[at]);
    assert(some[0] == some.take(l.spans.len() as int)[0]);
    assert(some.last().ink == Ink::Plain);
}

/// The accounts of a harness have their columns in order, each with its own status.
pub proof fn every_account_has_its_column(
    harness: Seq<char>,
    command: Seq<char>,
    accounts: Seq<ProfileQuota>,
    now: i64,
    n: int,
    i: int,
)
    requires
        0 <= i < n <= accounts.len(),
    ensures
        columns_of(harness, command, accounts, now, n).len() == n,
        columns_of(harness, command, accounts, now, n)[i] == account_line(
            if i == 0 {
                harness
            } else {
                harness + " ("@ + accounts[i].profile@ + ")"@
            },
            command,
            accounts[i],
            now,
        ),
    decreases n,
{
    assert(columns_of(harness, command, accounts, now, 0).len() == 0);
    if n > 1 {
        every_account_has_its_column(harness, command, accounts, now, n - 1, if i < n - 1 {
            i
        } else {
            0
        });
    }
}

/// An account that is refused for now says for how long, and one whose sign-in has run
/// out how it is renewed: a token by adding the account again.
pub proof fn a_failing_account_says_what_to_do(
    name: Seq<char>,
    command: Seq<char>,
    account: ProfileQuota,
    now: i64,
    at: i64,
    m: nat,
    s: nat,
)
    requires
        s < 60,
    ensures
        account.status == (ProviderStatus::RateLimited { retry_at: Some(at) }) && at == now + m * 60 + s && at > now ==> {
            let spans = account_line(name, command, account, now).spans;
            spans.len() == 3 && spans[1].text == "rate limited"@ && spans[2].text == " — retry in "@ + dec(m) + "m"@ + digits(
                s,
                2,
            ) + "s"@
        },
        account.status == (ProviderStatus::RateLimited { retry_at: Some(at) }) && at <= now ==> account_line(
            name,
            command,
            account,
            now,
        ).spans.len() == 2,
        account.status is Expired && account.source == AccountSource::Token ==> account_line(
            name,
            command,
            account,
            now,
        ).spans[2].text == "cctop --add-account"@,
        account.status is Expired && account.source == AccountSource::Directory ==> account_line(
            name,
            command,
            account,
            now,
        ).spans[2].text == command + " login"@,
        account.status matches ProviderStatus::Unavailable(why) ==> account_line(name, command, account, now).spans[1].text
            == "unavailable ("@ + why@ + ")"@,
        account.status is Pending ==> account_line(name, command, account, now).spans[1].text == "checking…"@,
        account.status is NotSignedIn ==> account_line(name, command, account, now).spans[1].text == "not signed in"@,
        account.status is ApiBilling ==> account_line(name, command, account, now).spans[1].text
            == "API billing, no limits"@,
{
    let left = m * 60 + s;
    assert(left / 60 == m);
    assert(left % 60 == s);
}

} // verus!
