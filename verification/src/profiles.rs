//! Which account a launch runs as.
//!
//! An account is a directory the agent is pointed at by an environment variable,
//! and only agents that read such a variable can have one. So whether there is an
//! account for a command has to be answered from the command itself, before
//! anything is started.

use vstd::prelude::*;

use crate::app::{App, Effect, Mode};
use crate::model::Provider;
use crate::text::words;
use crate::text::{between, before_suffix, cat, chars_of, ends, same, string_between, trim, trimmed};
use crate::wrap::{step, stepped};

verus! {

/// An account an agent can be started under.
pub struct Profile {
    pub provider: Provider,
    pub name: String,
    pub dir: String,
}

/// What the launcher offers.
pub enum Choice {
    /// Start a command.
    Start(Vec<String>),
    /// Go back to a session of the multiplexer that is still running.
    Waiting(String),
}

/// How an account is to be added.
#[derive(Debug, Clone, Copy, PartialEq, Eq, Structural)]
pub enum AccountKind {
    /// By a token that its program prints.
    Token,
    /// By logging in.
    Login,
}

/// How far adding an account has come.
pub struct AddAccount {
    pub name: String,
    pub named: bool,
    pub kind: Option<AccountKind>,
    /// A terminal is open on the account's own program.
    pub open: bool,
    pub link: Option<String>,
    /// The account's name, or why there is none.
    pub outcome: Option<Result<String, String>>,
}

impl AddAccount {
    /// Nothing done yet.
    pub fn new() -> (r: AddAccount)
        ensures
            r.name@.len() == 0,
            r == (AddAccount { name: r.name, named: false, kind: None, open: false, link: None, outcome: None }),
    {
        AddAccount { name: String::new(), named: false, kind: None, open: false, link: None, outcome: None }
    }
}

/// Whether a character may stand in an account's name.
pub open spec fn name_char(c: char) -> bool {
    ||| 'a' <= c <= 'z'
    ||| 'A' <= c <= 'Z'
    ||| '0' <= c <= '9'
    ||| c == '-'
    ||| c == '_'
    ||| c == '.'
}

/// Whether a text is the name of an account: letters, digits, `-`, `_` and `.`
/// only, and at least one of them.
pub open spec fn account_name(s: Seq<char>) -> bool {
    s.len() > 0 && forall|i: int| 0 <= i < s.len() ==> name_char(#[trigger] s[i])
}

/// Whether a text is the name of an account.
pub fn valid_account_name(s: &str) -> (r: bool)
    ensures
        r == account_name(s@),
{
    let v = chars_of(s);
    let mut i: usize = 0;
    while i < v.len()
        invariant
            i <= v@.len(),
            v@ == s@,
            forall|j: int| 0 <= j < i ==> name_char(#[trigger] v@[j]),
        decreases v@.len() - i,
    {
        let c = v[i];
        if !(('a' <= c && c <= 'z') || ('A' <= c && c <= 'Z') || ('0' <= c && c <= '9') || c == '-' || c == '_' || c
            == '.') {
            assert(!name_char(v@[i as int]));
            return false;
        }
        i += 1;
    }
    v.len() > 0
}

/// Where the last component of a path begins, whichever slash it is written
/// with.
pub open spec fn base_start(s: Seq<char>) -> int
    decreases s.len(),
{
    if s.len() == 0 {
        0
    } else if s.last() == '/' || s.last() == '\\' {
        s.len() as int
    } else {
        base_start(s.drop_last())
    }
}

/// The last component of a path.
pub open spec fn base_name(s: Seq<char>) -> Seq<char> {
    s.skip(base_start(s))
}

/// The command a path names: its last component, without the ending a program
/// has on Windows.
pub open spec fn command_name(s: Seq<char>) -> Seq<char> {
    let base = base_name(s);
    if ends(base, ".exe"@) {
        base.take(base.len() - ".exe"@.len())
    } else {
        base
    }
}

fn command_of(path: &str) -> (r: String)
    ensures
        r@ == command_name(path@),
{
    let v = chars_of(path);
    let mut n: usize = v.len();
    assert(v@.take(n as int) =~= v@);
    while n > 0 && v[n - 1] != '/' && v[n - 1] != '\\'
        invariant
            n <= v@.len(),
            base_start(v@) == base_start(v@.take(n as int)),
        decreases n,
    {
        assert(v@.take(n as int).drop_last() =~= v@.take(n - 1));
        n -= 1;
    }
    let base = string_between(&v, n, v.len());
    assert(base@ =~= base_name(path@));
    match before_suffix(base.as_str(), ".exe") {
        Some(stem) => stem,
        None => base,
    }
}

/// The agent a command starts, when it is one whose account an environment
/// variable picks. `own` is the command of the first of them.
pub open spec fn provider_of(argv: Seq<String>, own: Seq<char>) -> Option<Provider> {
    if argv.len() == 0 {
        None
    } else if command_name(argv[0]@) == own {
        Some(Provider::Claude)
    } else if command_name(argv[0]@) == "codex"@ {
        Some(Provider::Codex)
    } else {
        None
    }
}

/// The program that makes an account: a part of the agent's own command.
pub open spec fn program(kind: Option<AccountKind>, command: Seq<char>) -> Seq<char> {
    command + (if kind == Some(AccountKind::Login) {
        " auth login"@
    } else {
        " setup-token"@
    })
}

/// The program that makes an account.
pub fn program_of(kind: Option<AccountKind>, command: &str) -> (r: String)
    ensures
        r@ == program(kind, command@),
{
    let part = match kind {
        Some(AccountKind::Login) => " auth login",
        _ => " setup-token",
    };
    cat(command, part)
}

/// The variable that points an agent at an account.
pub open spec fn account_variable(provider: Provider) -> Option<Seq<char>> {
    match provider {
        Provider::Claude => Some("CLAUDE_CONFIG_DIR="@),
        Provider::Codex => Some("CODEX_HOME="@),
        _ => None,
    }
}

/// The command that starts `argv` under an account: `env VAR=dir` before it, and
/// `argv` itself where the agent has no such variable.
pub open spec fn under(argv: Seq<Seq<char>>, profile: Profile) -> Seq<Seq<char>> {
    match account_variable(profile.provider) {
        Some(var) => seq!["env"@, var + profile.dir@] + argv,
        None => argv,
    }
}

/// The command that starts `argv` under an account.
pub fn argv_under_profile(argv: Vec<String>, profile: &Profile) -> (r: Vec<String>)
    ensures
        words(r@) == under(words(argv@), *profile),
{
    let var = match profile.provider {
        Provider::Claude => "CLAUDE_CONFIG_DIR=",
        Provider::Codex => "CODEX_HOME=",
        _ => {
            return argv;
        },
    };
    let ghost was = argv@;
    let mut out: Vec<String> = Vec::new();
    out.push("env".to_owned());
    out.push(cat(var, profile.dir.as_str()));
    let mut rest = argv;
    let ghost head = out@;
    out.append(&mut rest);
    assert(out@ == head + was);
    assert(words(out@) =~= under(words(was), *profile));
    out
}

/// The places of a provider's accounts.
pub open spec fn account_places(accounts: Seq<Profile>, provider: Provider) -> Seq<int>
    decreases accounts.len(),
{
    if accounts.len() == 0 {
        Seq::empty()
    } else {
        let before = account_places(accounts.drop_last(), provider);
        if accounts.last().provider == provider {
            before.push(accounts.len() - 1)
        } else {
            before
        }
    }
}

/// Which account of a provider was picked last: the first, until one is.
pub open spec fn picked(picks: Seq<(Provider, usize)>, provider: Provider) -> usize
    decreases picks.len(),
{
    if picks.len() == 0 {
        0
    } else if picks[0].0 == provider {
        picks[0].1
    } else {
        picked(picks.skip(1), provider)
    }
}

proof fn places_in_range(accounts: Seq<Profile>, provider: Provider)
    ensures
        account_places(accounts, provider).len() <= accounts.len(),
        forall|i: int|
            0 <= i < account_places(accounts, provider).len() ==> 0 <= #[trigger] account_places(accounts, provider)[i]
                < accounts.len(),
    decreases accounts.len(),
{
    if accounts.len() > 0 {
        places_in_range(accounts.drop_last(), provider);
    }
}

/// What a popup's terminal shows and how its program stands.
pub struct Pumped {
    /// Something was drawn.
    pub drew: bool,
    /// The sign-in link on the screen.
    pub link: Option<String>,
    /// The token on the screen.
    pub token: Option<String>,
    /// The program has ended.
    pub closed: bool,
    /// The login has left its credentials.
    pub landed: bool,
}

/// What is known of the directory a login goes to.
pub struct LoginDir {
    pub path: String,
    /// The path, as it is shown.
    pub shown: String,
    /// A login is already there.
    pub landed: bool,
    /// Why it could not be made.
    pub refused: Option<String>,
}

impl App {
    fn places_of(&self, provider: Provider) -> (r: Vec<usize>)
        ensures
            r@.map_values(|i: usize| i as int) == account_places(self.accounts@, provider),
    {
        let mut out: Vec<usize> = Vec::new();
        let mut i: usize = 0;
        assert(out@.map_values(|i: usize| i as int) =~= account_places(self.accounts@.take(0), provider));
        while i < self.accounts.len()
            invariant
                i <= self.accounts@.len(),
                out@.map_values(|i: usize| i as int) == account_places(self.accounts@.take(i as int), provider),
            decreases self.accounts@.len() - i,
        {
            let ghost was = out@;
            proof {
                assert(self.accounts@.take(i + 1).drop_last() =~= self.accounts@.take(i as int));
                assert(self.accounts@.take(i + 1).last() == self.accounts@[i as int]);
            }
            if self.accounts[i].provider == provider {
                out.push(i);
                assert(out@.map_values(|i: usize| i as int) =~= was.map_values(|i: usize| i as int).push(i as int));
            }
            i += 1;
        }
        assert(self.accounts@.take(i as int) =~= self.accounts@);
        out
    }

    fn picked_of(&self, provider: Provider) -> (r: usize)
        ensures
            r == picked(self.launch_profile@, provider),
    {
        let mut i: usize = 0;
        assert(self.launch_profile@.skip(0) =~= self.launch_profile@);
        while i < self.launch_profile.len()
            invariant
                i <= self.launch_profile@.len(),
                picked(self.launch_profile@, provider) == picked(self.launch_profile@.skip(i as int), provider),
            decreases self.launch_profile@.len() - i,
        {
            if self.launch_profile[i].0 == provider {
                return self.launch_profile[i].1;
            }
            assert(self.launch_profile@.skip(i as int).skip(1) =~= self.launch_profile@.skip(i + 1));
            i += 1;
        }
        0
    }

    /// The account `provider` would be started under: none when there is only
    /// one, and so nothing to choose between.
    pub open spec fn profile_for(&self, provider: Provider) -> Option<Profile> {
        let places = account_places(self.accounts@, provider);
        let at = picked(self.launch_profile@, provider);
        if places.len() <= 1 || at >= places.len() {
            None
        } else {
            Some(self.accounts@[places[at as int]])
        }
    }

    /// The account `provider` would be started under, or `None` when it has only
    /// the one and so nothing to choose between.
    pub fn chosen_profile(&self, provider: Provider) -> (r: Option<&Profile>)
        ensures
            match r {
                Some(p) => self.profile_for(provider) == Some(*p),
                None => self.profile_for(provider) is None,
            },
    {
        let places = self.places_of(provider);
        let at: usize = self.picked_of(provider);
        proof {
            places_in_range(self.accounts@, provider);
        }
        let ghost p = account_places(self.accounts@, provider);
        assert(places@.len() == p.len());
        if places.len() <= 1 || at >= places.len() {
            return None;
        }
        assert(p[at as int] == places@[at as int]);
        Some(&self.accounts[places[at]])
    }

    /// The agent the highlighted choice would start.
    pub open spec fn offered(&self) -> Option<Provider> {
        if self.launch_cursor < self.launch_offer@.len() {
            match self.launch_offer@[self.launch_cursor as int] {
                Choice::Start(argv) => provider_of(argv@, self.names.command@),
                Choice::Waiting(_) => None,
            }
        } else {
            None
        }
    }

    /// Which agent the highlighted choice would start, when it is one whose
    /// account can be picked.
    pub fn launch_provider(&self) -> (r: Option<Provider>)
        ensures
            r == self.offered(),
    {
        if self.launch_cursor >= self.launch_offer.len() {
            return None;
        }
        match &self.launch_offer[self.launch_cursor] {
            Choice::Start(argv) => App::profile_provider(argv, self.names.command.as_str()),
            Choice::Waiting(_) => None,
        }
    }

    /// The account a launch would use, or `None` when the highlighted command
    /// takes none, or has only one.
    pub fn launch_profile(&self) -> (r: Option<&Profile>)
        ensures
            match r {
                Some(p) => self.offered() is Some && self.profile_for(self.offered()->0) == Some(*p),
                None => self.offered() is None || self.profile_for(self.offered()->0) is None,
            },
    {
        match self.launch_provider() {
            Some(provider) => self.chosen_profile(provider),
            None => None,
        }
    }

    /// Move to the next account of the highlighted agent, round to the first.
    pub fn cycle_launch_profile(&mut self)
        ensures
            ({
                let n = account_places(old(self).accounts@, old(self).offered()->0).len() as int;
                if old(self).offered() is None || n <= 1 {
                    *final(self) == *old(self)
                } else {
                    let provider = old(self).offered()->0;
                    &&& picked(final(self).launch_profile@, provider) == stepped(
                        picked(old(self).launch_profile@, provider) as int,
                        1,
                        n,
                    )
                    &&& forall|p: Provider|
                        p != provider ==> #[trigger] picked(final(self).launch_profile@, p) == picked(
                            old(self).launch_profile@,
                            p,
                        )
                    &&& final(self).effects@ == old(self).effects@.push(Effect::SavePrefs)
                    &&& *final(self) == (App {
                        launch_profile: final(self).launch_profile,
                        effects: final(self).effects,
                        needs_redraw: true,
                        ..*old(self)
                    })
                }
            }),
    {
        let provider = match self.launch_provider() {
            Some(p) => p,
            None => {
                return;
            },
        };
        let n: usize = self.places_of(provider).len();
        assert(n == account_places(self.accounts@, provider).len());
        if n <= 1 {
            return;
        }
        let at: usize = step(self.picked_of(provider), 1, n);
        let ghost was = self.launch_profile@;
        self.launch_profile.insert(0, (provider, at));
        proof {
            assert(self.launch_profile@.skip(1) =~= was);
            assert(self.launch_profile@[0] == (provider, at));
        }
        self.save_prefs();
        self.needs_redraw = true;
    }

    /// Which agent `argv` starts, when it is one whose account an environment
    /// variable picks. `own` is the command of the first of them.
    pub fn profile_provider(argv: &Vec<String>, own: &str) -> (r: Option<Provider>)
        ensures
            r == provider_of(argv@, own@),
    {
        if argv.len() == 0 {
            return None;
        }
        let command = command_of(argv[0].as_str());
        if same(command.as_str(), own) {
            Some(Provider::Claude)
        } else if same(command.as_str(), "codex") {
            Some(Provider::Codex)
        } else {
            None
        }
    }

    /// Put the chosen account in front of the command that will read it.
    ///
    /// `env VAR=value cmd` rather than an environment through every way of
    /// starting it: the same command is handed to all of them.
    pub fn with_profile(&self, argv: Vec<String>) -> (r: Vec<String>)
        ensures
            words(r@) == (match provider_of(argv@, self.names.command@) {
                Some(p) => match self.profile_for(p) {
                    Some(profile) => under(words(argv@), profile),
                    None => words(argv@),
                },
                None => words(argv@),
            }),
    {
        match App::profile_provider(&argv, self.names.command.as_str()) {
            None => argv,
            Some(p) => match self.chosen_profile(p) {
                None => argv,
                Some(profile) => argv_under_profile(argv, profile),
            },
        }
    }

    /// Open the add-account popup on its first step, the name.
    pub fn open_add_account(&mut self)
        ensures
            final(self).add_account.name@.len() == 0,
            final(self).add_account == (AddAccount {
                name: final(self).add_account.name,
                named: false,
                kind: None,
                open: false,
                link: None,
                outcome: None,
            }),
            *final(self) == (App {
                add_account: final(self).add_account,
                mode: Mode::AddAccount,
                needs_redraw: true,
                ..*old(self)
            }),
    {
        self.add_account = AddAccount::new();
        self.mode = Mode::AddAccount;
        self.needs_redraw = true;
    }

    /// The name is in: check it, and ask which kind of account it is.
    ///
    /// `default` is the account there is without any name, so nothing else may be
    /// called that.
    pub fn accept_account_name(&mut self)
        ensures
            ({
                let name = trimmed(old(self).add_account.name@);
                if !account_name(name) {
                    old(self).said("An account name is letters, digits, - _ and . only"@, *final(self))
                } else if name == "default"@ {
                    old(self).said(
                        "`default` is ~/."@ + old(self).names.command@ + " itself — name this account something else"@,
                        *final(self),
                    )
                } else {
                    &&& final(self).add_account.name@ == name
                    &&& final(self).add_account == (AddAccount {
                        name: final(self).add_account.name,
                        named: true,
                        ..old(self).add_account
                    })
                    &&& *final(self) == (App {
                        add_account: final(self).add_account,
                        needs_redraw: true,
                        ..*old(self)
                    })
                }
            }),
    {
        let name = trim(self.add_account.name.as_str());
        if !valid_account_name(name.as_str()) {
            self.set_status("An account name is letters, digits, - _ and . only".to_owned());
            return;
        }
        if same(name.as_str(), "default") {
            let said = between(
                "`default` is ~/.",
                self.names.command.as_str(),
                " itself — name this account something else",
            );
            self.set_status(said);
            return;
        }
        self.add_account.name = name;
        self.add_account.named = true;
        self.needs_redraw = true;
    }

    /// What ending the popup's flow with `why` leaves of a state.
    pub open spec fn account_refused(&self, why: Seq<char>, after: App) -> bool {
        &&& after.add_account.outcome is Some
        &&& after.add_account.outcome->0 is Err
        &&& after.add_account.outcome->0->Err_0@ == why
        &&& after == (App {
            add_account: AddAccount { outcome: after.add_account.outcome, ..self.add_account },
            needs_redraw: true,
            ..*self
        })
    }

    /// What asking for the account's program leaves of a state.
    pub open spec fn account_asked(&self, kind: AccountKind, argv: Seq<Seq<char>>, dir: Option<Seq<char>>, after: App) -> bool {
        &&& after.effects@.len() == self.effects@.len() + 1
        &&& after.effects@.drop_last() == self.effects@
        &&& after.effects@.last() matches Effect::StartAccount { argv: a, dir: d } && words(a@) == argv && match (d, dir) {
            (Some(x), Some(y)) => x@ == y,
            (None, None) => true,
            _ => false,
        }
        &&& after == (App {
            add_account: AddAccount { kind: Some(kind), ..self.add_account },
            effects: after.effects,
            needs_redraw: true,
            ..*self
        })
    }

    /// Start the kind of account that was picked, in the popup's terminal.
    ///
    /// A login that is already there is said to be, and so is a directory that
    /// could not be made. `login` is what is known of that directory, and is read
    /// only for a login.
    pub fn start_add_account(&mut self, kind: AccountKind, login: &LoginDir)
        ensures
            match kind {
                AccountKind::Token => old(self).account_asked(
                    kind,
                    seq![old(self).names.command@, "setup-token"@],
                    None,
                    *final(self),
                ),
                AccountKind::Login => if login.landed {
                    old(self).account_refused(
                        login.shown@ + " is already logged in — it is in the launcher as "@ + old(self).add_account.name@
                            + "."@,
                        *final(self),
                    )
                } else if login.refused is Some {
                    old(self).account_refused(
                        "Could not create "@ + login.path@ + ": "@ + login.refused->0@,
                        *final(self),
                    )
                } else {
                    old(self).account_asked(
                        kind,
                        seq![
                            "env"@,
                            "CLAUDE_CONFIG_DIR="@ + login.path@,
                            old(self).names.command@,
                            "auth"@,
                            "login"@,
                            "--claudeai"@,
                        ],
                        Some(login.path@),
                        *final(self),
                    )
                },
            },
    {
        let mut argv: Vec<String> = Vec::new();
        let mut dir: Option<String> = None;
        match kind {
            AccountKind::Token => {
                argv.push(self.names.command.clone());
                argv.push("setup-token".to_owned());
                assert(words(argv@) =~= seq![self.names.command@, "setup-token"@]);
            },
            AccountKind::Login => {
                if login.landed {
                    let mut s = cat(
                        login.shown.as_str(),
                        " is already logged in — it is in the launcher as ",
                    );
                    s.append(self.add_account.name.as_str());
                    s.append(".");
                    self.add_account.outcome = Some(Err(s));
                    self.needs_redraw = true;
                    return;
                }
                match &login.refused {
                    Some(why) => {
                        let mut s = cat("Could not create ", login.path.as_str());
                        s.append(": ");
                        s.append(why.as_str());
                        self.add_account.outcome = Some(Err(s));
                        self.needs_redraw = true;
                        return;
                    },
                    None => {},
                }
                argv.push("env".to_owned());
                argv.push(cat("CLAUDE_CONFIG_DIR=", login.path.as_str()));
                argv.push(self.names.command.clone());
                argv.push("auth".to_owned());
                argv.push("login".to_owned());
                argv.push("--claudeai".to_owned());
                assert(words(argv@) =~= seq![
                    "env"@,
                    "CLAUDE_CONFIG_DIR="@ + login.path@,
                    self.names.command@,
                    "auth"@,
                    "login"@,
                    "--claudeai"@,
                ]);
                dir = Some(login.path.clone());
            },
        }
        self.add_account.kind = Some(kind);
        self.ask(Effect::StartAccount { argv, dir });
        assert(self.effects@.drop_last() =~= old(self).effects@);
        self.needs_redraw = true;
    }

    /// What came of starting the account's program.
    pub fn account_started(&mut self, answer: Result<(), String>)
        ensures
            match answer {
                Ok(_) => *final(self) == (App {
                    add_account: AddAccount { open: true, ..old(self).add_account },
                    needs_redraw: true,
                    ..*old(self)
                }),
                Err(e) => old(self).account_refused(
                    "Could not run `"@ + program(old(self).add_account.kind, old(self).names.command@) + "` here ("@ + e@ + "). In a terminal, `cctop --add-account "@ + old(self).add_account.name@
                        + "` adds it as a token."@,
                    *final(self),
                ),
            },
    {
        match answer {
            Ok(_) => {
                self.add_account.open = true;
            },
            Err(e) => {
                let what = program_of(self.add_account.kind, self.names.command.as_str());
                let mut s = cat("Could not run `", what.as_str());
                s.append("` here (");
                s.append(e.as_str());
                s.append("). In a terminal, `cctop --add-account ");
                s.append(self.add_account.name.as_str());
                s.append("` adds it as a token.");
                self.add_account.outcome = Some(Err(s));
            },
        }
        self.needs_redraw = true;
    }

    /// The link the popup has seen, once more has been drawn.
    pub open spec fn link_after(&self, seen: Pumped) -> Option<String> {
        if seen.drew && seen.link is Some {
            seen.link
        } else {
            self.add_account.link
        }
    }

    /// Hear the popup's terminal, and notice the moment the account exists: a
    /// token when it is printed, a login when its program ends having left its
    /// credentials.
    ///
    /// The link is read again whenever something is drawn: it is printed over
    /// several rows, and the first sighting can be before the last of them. A
    /// program that failed is left on screen, because what it said is the
    /// explanation.
    pub fn pump_add_account(&mut self, seen: Pumped)
        ensures
            ({
                let flow = old(self).add_account;
                let linked = AddAccount { link: old(self).link_after(seen), ..flow };
                let drawn = if seen.drew {
                    true
                } else {
                    old(self).needs_redraw
                };
                if !flow.open {
                    *final(self) == *old(self)
                } else if seen.drew && flow.kind == Some(AccountKind::Token) && seen.token is Some {
                    &&& final(self).effects@ == old(self).effects@.push(
                        Effect::SaveToken { name: flow.name, token: seen.token->0 },
                    )
                    &&& *final(self) == (App {
                        add_account: AddAccount { open: false, ..linked },
                        effects: final(self).effects,
                        needs_redraw: true,
                        ..*old(self)
                    })
                } else if flow.outcome is Some || !seen.closed {
                    *final(self) == (App { add_account: linked, needs_redraw: drawn, ..*old(self) })
                } else {
                    let landed = flow.kind == Some(AccountKind::Login) && seen.landed;
                    &&& final(self).add_account.outcome is Some
                    &&& match final(self).add_account.outcome->0 {
                        Ok(name) => landed && name == flow.name,
                        Err(why) => !landed && why@ == "`"@ + program(flow.kind, old(self).names.command@) + (if flow.kind == Some(
                            AccountKind::Login,
                        ) {
                            "` ended without logging in."@
                        } else {
                            "` ended without printing a token."@
                        }),
                    }
                    &&& *final(self) == (App {
                        add_account: AddAccount {
                            outcome: final(self).add_account.outcome,
                            open: if landed {
                                false
                            } else {
                                true
                            },
                            ..linked
                        },
                        needs_redraw: true,
                        ..*old(self)
                    })
                }
            }),
    {
        if !self.add_account.open {
            return;
        }
        if seen.drew {
            self.needs_redraw = true;
            if seen.link.is_some() {
                self.add_account.link = seen.link;
            }
            if self.add_account.kind == Some(AccountKind::Token) {
                match seen.token {
                    Some(token) => {
                        self.add_account.open = false;
                        let name = self.add_account.name.clone();
                        self.ask(Effect::SaveToken { name, token });
                        return;
                    },
                    None => {},
                }
            }
        }
        if self.add_account.outcome.is_some() || !seen.closed {
            return;
        }
        self.needs_redraw = true;
        let login = self.add_account.kind == Some(AccountKind::Login);
        if login && seen.landed {
            self.add_account.open = false;
            self.add_account.outcome = Some(Ok(self.add_account.name.clone()));
        } else {
            let what = program_of(self.add_account.kind, self.names.command.as_str());
            let why = if login {
                "` ended without logging in."
            } else {
                "` ended without printing a token."
            };
            self.add_account.outcome = Some(Err(between("`", what.as_str(), why)));
        }
    }

    /// What came of writing an account's token down.
    pub fn token_saved(&mut self, answer: Result<(), String>)
        ensures
            final(self).add_account.outcome is Some,
            match (final(self).add_account.outcome->0, answer) {
                (Ok(name), Ok(_)) => name == old(self).add_account.name,
                (Err(why), Err(e)) => why@ == "Could not save the token: "@ + e@,
                _ => false,
            },
            *final(self) == (App {
                add_account: AddAccount { outcome: final(self).add_account.outcome, ..old(self).add_account },
                needs_redraw: true,
                ..*old(self)
            }),
    {
        self.add_account.outcome = match answer {
            Ok(_) => Some(Ok(self.add_account.name.clone())),
            Err(e) => Some(Err(cat("Could not save the token: ", e.as_str()))),
        };
        self.needs_redraw = true;
    }
}

proof fn a_base_without_slashes(dir: Seq<char>, slash: char, name: Seq<char>)
    requires
        slash == '/' || slash == '\\',
        forall|i: int| 0 <= i < name.len() ==> #[trigger] name[i] != '/' && name[i] != '\\',
    ensures
        base_start(dir.push(slash) + name) == dir.len() + 1,
        base_start(name) == 0,
    decreases name.len(),
{
    let all = dir.push(slash) + name;
    if name.len() > 0 {
        assert(all.last() == name[name.len() - 1]);
        assert(all.drop_last() =~= dir.push(slash) + name.drop_last());
        a_base_without_slashes(dir, slash, name.drop_last());
    } else {
        assert(all.last() == slash);
    }
}

/// A command is known by its program's name, wherever that is and whatever it is
/// called on Windows.
pub proof fn a_command_is_known_by_its_name(dir: Seq<char>, slash: char, name: Seq<char>)
    requires
        slash == '/' || slash == '\\',
        forall|i: int| 0 <= i < name.len() ==> #[trigger] name[i] != '/' && name[i] != '\\',
        !ends(name, ".exe"@),
    ensures
        command_name(name) == name,
        command_name(dir.push(slash) + name) == name,
        command_name(dir.push(slash) + (name + ".exe"@)) == name,
{
    reveal_strlit(".exe");
    a_base_without_slashes(dir, slash, name);
    let all = dir.push(slash) + name;
    assert(name.skip(0) =~= name);
    assert(all.skip(dir.len() as int + 1) =~= name);
    let long = name + ".exe"@;
    assert forall|i: int| 0 <= i < long.len() implies #[trigger] long[i] != '/' && long[i] != '\\' by {
        if i < name.len() {
            assert(long[i] == name[i]);
        } else {
            assert(long[i] == ".exe"@[i - name.len()]);
        }
    }
    a_base_without_slashes(dir, slash, long);
    assert((dir.push(slash) + long).skip(dir.len() as int + 1) =~= long);
    assert(long.skip(long.len() - 4) =~= ".exe"@);
    assert(long.take(long.len() - 4) =~= name);
}

/// The accounts of a provider are those of its own, each once and in order.
pub proof fn accounts_are_of_their_provider(accounts: Seq<Profile>, provider: Provider, i: int)
    ensures
        account_places(accounts, provider).contains(i) <==> 0 <= i < accounts.len() && accounts[i].provider == provider,
        forall|a: int, b: int|
            0 <= a < b < account_places(accounts, provider).len() ==> #[trigger] account_places(accounts, provider)[a]
                < #[trigger] account_places(accounts, provider)[b],
    decreases accounts.len(),
{
    let all = account_places(accounts, provider);
    if accounts.len() > 0 {
        let n = accounts.len() - 1;
        let before = account_places(accounts.drop_last(), provider);
        accounts_are_of_their_provider(accounts.drop_last(), provider, i);
        places_in_range(accounts.drop_last(), provider);
        if accounts.last().provider == provider {
            assert(all == before.push(n));
            assert(all[before.len() as int] == n);
            if before.contains(i) {
                let k = choose|k: int| 0 <= k < before.len() && before[k] == i;
                assert(all[k] == i);
            }
            if all.contains(i) {
                let k = choose|k: int| 0 <= k < all.len() && all[k] == i;
                if k < before.len() {
                    assert(before[k] == i);
                }
            }
            assert forall|a: int, b: int| 0 <= a < b < all.len() implies #[trigger] all[a] < #[trigger] all[b] by {
                if b < before.len() {
                    assert(before[a] < before[b]);
                } else {
                    assert(all[a] == before[a]);
                }
            }
        }
        if 0 <= i < n {
            assert(accounts.drop_last()[i] == accounts[i]);
        }
    } else {
        assert(all.len() == 0);
    }
}

/// An agent is started under an account of its own provider, and under none where it
/// has only one.
pub proof fn an_agent_is_started_under_its_own_account(app: App, provider: Provider)
    ensures
        app.profile_for(provider) matches Some(p) ==> p.provider == provider && app.accounts@.contains(p),
        account_places(app.accounts@, provider).len() <= 1 ==> app.profile_for(provider) is None,
{
    let places = account_places(app.accounts@, provider);
    if app.profile_for(provider) is Some {
        let at = picked(app.launch_profile@, provider) as int;
        assert(places.contains(places[at]));
        accounts_are_of_their_provider(app.accounts@, provider, places[at]);
    }
}

/// A command that is started under an account is that command, with only the account's
/// directory set before it.
pub proof fn an_account_is_set_before_the_command(argv: Seq<Seq<char>>, profile: Profile)
    ensures
        profile.provider == Provider::Codex ==> under(argv, profile).len() == argv.len() + 2 && under(argv, profile).skip(2)
            == argv && under(argv, profile)[0] == "env"@ && under(argv, profile)[1] == "CODEX_HOME="@ + profile.dir@,
        profile.provider == Provider::Claude ==> under(argv, profile).len() == argv.len() + 2 && under(argv, profile).skip(2)
            == argv && under(argv, profile)[0] == "env"@ && crate::text::ends(under(argv, profile)[1], profile.dir@),
        profile.provider != Provider::Codex && profile.provider != Provider::Claude ==> under(argv, profile) == argv,
{
    let u = under(argv, profile);
    if profile.provider == Provider::Codex || profile.provider == Provider::Claude {
        assert(u.skip(2) =~= argv);
        assert(u[1].skip(u[1].len() - profile.dir@.len()) =~= profile.dir@);
    }
}

/// The pick of a provider is the last one made for it, which stands first, and the
/// first account until one is.
pub proof fn a_pick_is_of_its_provider(picks: Seq<(Provider, usize)>, provider: Provider, k: int)
    requires
        0 <= k <= picks.len(),
        forall|i: int| 0 <= i < k ==> (#[trigger] picks[i]).0 != provider,
        k < picks.len() ==> picks[k].0 == provider,
    ensures
        k < picks.len() ==> picked(picks, provider) == picks[k].1,
        k == picks.len() ==> picked(picks, provider) == 0,
    decreases k,
{
    if k > 0 {
        assert(picks[0].0 != provider);
        assert forall|i: int| 0 <= i < k - 1 implies (#[trigger] picks.skip(1)[i]).0 != provider by {
            assert(picks.skip(1)[i] == picks[i + 1]);
        }
        a_pick_is_of_its_provider(picks.skip(1), provider, k - 1);
    }
}

/// A full account is made by logging in and a token by setting one up, with the agent's
/// own command.
pub proof fn an_account_is_made_by_its_own_program(command: Seq<char>)
    ensures
        program(Some(AccountKind::Login), command) == command + " auth login"@,
        program(Some(AccountKind::Token), command) == command + " setup-token"@,
        program(None, command) == command + " setup-token"@,
{
}

/// An account's name is of letters, digits and the three signs, and of nothing that
/// would lead out of its directory.
pub proof fn a_name_leads_nowhere(s: Seq<char>, i: int)
    requires
        account_name(s),
        0 <= i < s.len(),
    ensures
        s[i] != '/' && s[i] != '\\' && s[i] != ' ' && s[i] != '~' && s[i] != '$',
        s.len() > 0,
{
    assert(name_char(s[i]));
}

} // verus!
