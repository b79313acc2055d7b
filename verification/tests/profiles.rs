use cctop::app::{App, Effect, Mode};
use cctop::model::{Names, Plan, Provider};
use cctop::profiles::{argv_under_profile, valid_account_name, AccountKind, Choice, LoginDir, Profile, Pumped};

fn command() -> String {
    format!("{:?}", Provider::Claude).to_lowercase()
}

fn test_app() -> App {
    let names = Names {
        command: command(),
        title: format!("{:?}", Provider::Claude),
        file: format!("{}.md", command().to_uppercase()),
    };
    App::new(Plan::Retail, "1.0.0".to_string(), names)
}

fn said(app: &App) -> String {
    app.status.clone().expect("nothing was said").0
}

fn login(landed: bool, refused: Option<&str>) -> LoginDir {
    LoginDir {
        path: "/home/x/.agent-work".to_string(),
        shown: "~/.agent-work".to_string(),
        landed,
        refused: refused.map(str::to_string),
    }
}

fn quiet() -> Pumped {
    Pumped { drew: false, link: None, token: None, closed: false, landed: false }
}

/// A good name asks which kind of account it is rather than starting anything,
/// and a bad one is refused where it was typed.
#[test]
fn the_add_account_popup_asks_which_kind_after_the_name() {
    let mut app = test_app();
    app.open_add_account();
    app.add_account.name = "work 2".to_string();
    app.accept_account_name();
    assert!(!app.add_account.named, "a name with a space was accepted");

    app.add_account.name = "work2".to_string();
    app.accept_account_name();
    assert!(app.add_account.named);
    assert!(!app.add_account.open, "something started before the choice");
    assert_eq!(app.add_account.kind, None);
    assert!(app.effects.is_empty());
    assert_eq!(app.add_account.name, "work2");
    assert_eq!(app.mode, Mode::AddAccount);
}

#[test]
fn only_a_harness_with_a_config_variable_takes_a_profile() {
    let of = |c: &str| App::profile_provider(&vec![c.to_string()], &command());
    assert_eq!(of(&command()), Some(Provider::Claude));
    assert_eq!(of("codex"), Some(Provider::Codex));
    // Found by basename, however it was spelled on the way in.
    assert_eq!(of("/usr/local/bin/codex"), Some(Provider::Codex));
    assert_eq!(of("codex.exe"), Some(Provider::Codex));
    assert_eq!(of(&format!(r"C:\tools\{}.exe", command())), Some(Provider::Claude));
    // No such variable: a profile would be a setting that did nothing.
    assert_eq!(of("cursor-agent"), None);
    assert_eq!(of("gemini"), None);
    // Not a prefix match.
    assert_eq!(of("codexa"), None);
    assert_eq!(App::profile_provider(&vec![], &command()), None);
}

#[test]
fn a_profile_reaches_the_agent_as_its_own_variable() {
    let under = |dir: &str, provider, command: &str| {
        let profile = Profile { provider, name: "work".to_string(), dir: dir.to_string() };
        argv_under_profile(vec![command.to_string()], &profile)
    };
    assert_eq!(
        under("/home/x/.codex-work", Provider::Codex, "codex"),
        ["env", "CODEX_HOME=/home/x/.codex-work", "codex"]
    );
    let dir = format!("/home/x/.{}-work", command());
    assert_eq!(
        under(&dir, Provider::Claude, &command()),
        ["env".to_string(), format!("CLAUDE_CONFIG_DIR={dir}"), command()]
    );
    // A harness with no variable is handed its command untouched.
    assert_eq!(under("/home/x/.cursor", Provider::Cursor, "cursor-agent"), ["cursor-agent"]);
}

#[test]
fn an_account_has_a_name_of_its_own() {
    assert!(valid_account_name("side_2.b-c"));
    assert!(!valid_account_name(""));
    assert!(!valid_account_name("a/b"));
    let mut app = test_app();
    app.open_add_account();
    app.add_account.name = " default ".to_string();
    app.accept_account_name();
    assert!(!app.add_account.named);
    assert_eq!(
        said(&app),
        format!("`default` is ~/.{} itself — name this account something else", command())
    );
}

/// A token is saved the moment it is printed.
#[test]
fn a_printed_token_is_written_down() {
    let mut app = test_app();
    app.open_add_account();
    app.add_account.name = "work".to_string();
    app.accept_account_name();
    app.start_add_account(AccountKind::Token, &login(false, None));
    let Some(Effect::StartAccount { argv, dir }) = app.effects.pop() else {
        panic!("nothing was started");
    };
    assert_eq!(argv, [command(), "setup-token".to_string()]);
    assert_eq!(dir, None);
    app.account_started(Ok(()));
    assert!(app.add_account.open);
    app.pump_add_account(Pumped {
        drew: true,
        link: Some("https://a.io/".to_string()),
        ..quiet()
    });
    assert_eq!(app.add_account.link.as_deref(), Some("https://a.io/"));
    app.pump_add_account(Pumped { drew: true, token: Some("SECRET-REDACTED".to_string()), ..quiet() });
    assert!(!app.add_account.open);
    assert!(matches!(app.effects.last(), Some(Effect::SaveToken { name, .. }) if name == "work"));
    app.token_saved(Ok(()));
    assert_eq!(app.add_account.outcome, Some(Ok("work".to_string())));
    app.token_saved(Err("disk full".to_string()));
    assert_eq!(app.add_account.outcome, Some(Err("Could not save the token: disk full".to_string())));
}

/// A login that is there already, or that cannot be made, is not started; one that
/// ends without credentials says so.
#[test]
fn a_login_lands_or_says_why_it_did_not() {
    let start = |app: &mut App, dir: &LoginDir| {
        app.open_add_account();
        app.add_account.name = "work".to_string();
        app.accept_account_name();
        app.start_add_account(AccountKind::Login, dir);
    };
    let mut app = test_app();
    start(&mut app, &login(true, None));
    assert_eq!(
        app.add_account.outcome,
        Some(Err("~/.agent-work is already logged in — it is in the launcher as work.".to_string()))
    );
    start(&mut app, &login(false, Some("read-only")));
    assert_eq!(
        app.add_account.outcome,
        Some(Err("Could not create /home/x/.agent-work: read-only".to_string()))
    );
    assert!(app.effects.is_empty());
    start(&mut app, &login(false, None));
    assert!(matches!(app.effects.last(), Some(Effect::StartAccount { dir: Some(d), .. }) if d == "/home/x/.agent-work"));
    app.account_started(Ok(()));
    app.pump_add_account(Pumped { closed: true, ..quiet() });
    assert_eq!(
        app.add_account.outcome,
        Some(Err(format!("`{} auth login` ended without logging in.", command())))
    );
    assert!(app.add_account.open, "what the program said is the explanation");
    start(&mut app, &login(false, None));
    app.account_started(Err("no pty".to_string()));
    assert_eq!(
        app.add_account.outcome,
        Some(Err(format!(
            "Could not run `{} auth login` here (no pty). In a terminal, `cctop --add-account work` adds it as a token.",
            command()
        )))
    );
}

/// The account in hand goes round those its agent has, and back to none.
#[test]
fn the_account_in_hand_goes_round() {
    let mut app = test_app();
    app.launch_offer = vec![Choice::Start(vec!["codex".to_string()])];
    for name in ["default", "work"] {
        app.accounts.push(Profile {
            provider: Provider::Codex,
            name: name.to_string(),
            dir: format!("/home/x/.codex-{name}"),
        });
    }
    assert_eq!(app.launch_provider(), Some(Provider::Codex));
    let argv = vec!["codex".to_string()];
    let before = app.with_profile(argv.clone());
    app.cycle_launch_profile();
    let after = app.with_profile(argv);
    assert_ne!(before, after);
    app.cycle_launch_profile();
    assert_eq!(app.with_profile(vec!["codex".to_string()]), before);
}
