use cctop::app::{compute_spend, App, Effect, Mode};
use cctop::keyboard::{Key, KeyCode};
use cctop::keys::KeyMap;
use cctop::model::{Names, Overlap, Plan, Provider, Remote, Session};
use cctop::remote::{path_tail, skew, Collision, Host, Probe, UpdateFailure};

fn command() -> String {
    format!("{:?}", Provider::Claude).to_lowercase()
}

fn names() -> Names {
    Names {
        command: command(),
        title: format!("{:?}", Provider::Claude),
        file: format!("{}.md", command().to_uppercase()),
    }
}

fn test_app() -> App {
    App::new(Plan::Retail, "1.0.0".to_string(), names())
}

fn session(id: &str, running: bool, label: &str) -> Session {
    let mut s = Session::new(Provider::Claude, command(), id.to_string());
    s.inferred_running = running;
    s.label_source = label.to_string();
    s
}

fn away(id: &str, host: &str, branch: Option<&str>) -> Session {
    let mut s = session(id, true, "/srv/work");
    s.remote = Some(Remote { host: host.to_string(), branch: branch.map(str::to_string), skew: None });
    s
}

fn host() -> Host {
    Host { target: "box".to_string(), command: "cctop".to_string() }
}

/// Two live agents in one checkout, both having written the same file: the footer
/// names the file, and the panel the peer.
#[test]
fn a_contested_file_reaches_the_footer_and_the_info_panel() {
    let mut app = test_app();
    app.sessions = vec![session("a", true, "a"), session("b", true, "b")];
    let contested = "/repo/src/ui/mod.rs".to_string();
    let (a, b) = (app.sessions[0].key(), app.sessions[1].key());
    let clash = |peer: &str, level| Collision {
        level,
        peers: vec![peer.to_string()],
        files: vec![contested.clone()],
    };
    let both = |level: Overlap| {
        let mut found = KeyMap::new();
        found.insert(a.clone(), clash(&b, level));
        found.insert(b.clone(), clash(&a, level));
        found
    };
    app.take_collisions(both(Overlap::File));

    // On the rows, so that the column can colour and sort by it.
    for s in &app.sessions {
        assert_eq!(s.conflict, Some(Overlap::File));
    }
    let footer = app.conflict_footer().expect("a warning");
    assert!(footer.contains("ui/mod.rs"), "{footer}");
    assert!(footer.contains("2 agents"), "{footer}");

    let found = app.clash_of(&app.sessions[0]).expect("a clash");
    assert_eq!(found.peers, vec![app.sessions[1].display_label().to_string()]);
    assert_eq!(found.files, vec![contested.clone()]);

    // A shared repository without a shared file does not reach the footer.
    app.take_collisions(both(Overlap::Directory));
    assert_eq!(app.sessions[0].conflict, Some(Overlap::Directory));
    assert!(app.conflict_footer().is_none());
    app.take_collisions(KeyMap::new());
    assert_eq!(app.sessions[0].conflict, None);
}

/// A remote row survives the walk that replaces the table, counts towards the
/// totals, and refuses every key that would reach into this machine.
#[test]
fn remote_rows_outlive_a_walk_and_stay_read_only() {
    let mut app = test_app();
    app.sessions = vec![session("local", true, "/here")];
    let mut far = away("away", "box", Some("main"));
    far.total_cost = Some(3_000_000_000);
    app.fleet.remotes.insert("box".to_string(), vec![far]);
    app.merge_remotes();
    assert_eq!(app.sessions.len(), 2);
    assert_eq!(compute_spend(&app.sessions).claude, 3_000_000_000, "totals span hosts");
    assert_eq!(app.spend.claude, 3_000_000_000, "totals span hosts");

    app.sessions = vec![session("local", true, "/here")];
    app.merge_remotes();
    assert_eq!(app.sessions.len(), 2);
    assert_eq!(app.sessions.iter().filter(|s| s.remote.is_some()).count(), 1);

    let remote = app.sessions.iter().find(|s| s.remote.is_some()).expect("the remote row");
    let why = App::remote_refusal(remote).expect("a refusal");
    assert!(why.contains("box"), "the refusal has to name the machine");
    assert!(App::remote_refusal(&app.sessions[0]).is_none());
    assert_eq!(remote.remote.as_ref().unwrap().branch.as_deref(), Some("main"));

    app.fleet.errors.insert("box".to_string(), "Permission denied".to_string());
    let footer = app.remote_footer().expect("a warning");
    assert!(footer.contains("box"), "{footer}");
    assert!(footer.contains("Permission denied"), "{footer}");
}

/// A server left behind: said once, and updated only through a confirmation.
#[test]
fn an_older_remote_is_said_once_marked_and_offered_an_update() {
    let mut app = test_app();
    app.fleet.hosts = vec![host()];
    app.fleet.remotes.insert("box".to_string(), vec![away("away", "box", None)]);
    app.merge_remotes();
    app.refilter();

    let refusal = app.remote_update_refusal("box").expect("not yet");
    assert!(refusal.contains("not known"), "{refusal}");

    app.got_remote_version("box".to_string(), Probe::Version("0.0.1".to_string()));
    app.merge_remotes();
    app.refilter();
    let said: Vec<String> = app.toasts.iter().map(|t| t.text.clone()).collect();
    assert_eq!(said.len(), 1, "{said:?}");
    assert!(said[0].contains("box runs cctop 0.0.1"), "{}", said[0]);

    // A reconnect answers the same; the toast is not said twice.
    app.got_remote_version("box".to_string(), Probe::Version("0.0.1".to_string()));
    assert_eq!(app.toasts.len(), 1);

    // The row carries how far behind its machine is.
    app.selected = 0;
    assert!(app.sessions[0].remote.as_ref().unwrap().skew.is_some());
    assert!(app.remote_update_refusal("box").is_none());

    app.confirm_remote_update();
    assert_eq!(app.mode, Mode::RemoteUpdateConfirm);
    // Anything but y is a no, and asks for nothing.
    app.on_key_remote_update(Key::of(KeyCode::Char('n')));
    assert_eq!(app.mode, Mode::List);
    assert!(
        !app.effects.iter().any(|e| matches!(e, Effect::UpdateRemote(_))),
        "a no must not reach the worker"
    );

    app.confirm_remote_update();
    app.on_key_remote_update(Key::of(KeyCode::Char('y')));
    assert!(
        app.effects.iter().any(|e| matches!(e, Effect::UpdateRemote(h) if h.target == "box")),
        "the update went to the worker"
    );
    // While it runs, a second is not offered.
    assert!(app.remote_update_refusal("box").is_some());

    app.remote_updated(
        "box".to_string(),
        Err(UpdateFailure::NeedsRoot("ssh -t box sudo cctop --update".to_string())),
    );
    let last = app.toasts.first().expect("a toast").text.clone();
    assert!(last.contains("only root can write"), "{last}");
    assert!(last.contains("ssh -t box sudo cctop --update"), "{last}");
    app.remote_updated("box".to_string(), Err(UpdateFailure::Other("no route".to_string())));
    assert_eq!(app.toasts.first().unwrap().text, "Could not update box: no route");
    app.remote_updated("box".to_string(), Ok("done".to_string()));
    assert_eq!(app.toasts.first().unwrap().text, "box: done");
}

/// A remote that is ahead means this machine is the stale one.
#[test]
fn a_newer_remote_points_at_this_machine() {
    let mut app = test_app();
    app.got_remote_version("box".to_string(), Probe::Version("999.0.0".to_string()));
    let said = app.toasts.first().expect("a toast").text.clone();
    assert!(said.contains("cctop --update` here"), "{said}");
    let why = app.remote_update_refusal("box").expect("refused");
    assert!(why.contains("update this one"), "{why}");

    // And a host with no cctop at all is told how to point at one.
    app.got_remote_version("bare".to_string(), Probe::Missing);
    let said = app.toasts.first().expect("a toast").text.clone();
    assert!(said.contains("--host bare:/path/to/cctop"), "{said}");
}

#[test]
fn a_version_is_told_from_another() {
    assert!(skew(&Probe::Version("1.0.0".to_string()), "1.0.0").is_none());
    assert!(skew(&Probe::Version("1.2.9".to_string()), "1.10.0").is_some());
    assert_eq!(path_tail("/a/b/c.rs", 2), "b/c.rs");
    assert_eq!(path_tail("c.rs", 2), "c.rs");
}

#[test]
fn a_row_of_another_machine_is_known() {
    let mut app = test_app();
    assert!(!app.selected_is_remote());
    app.sessions = vec![away("away", "box", None)];
    app.refilter();
    assert!(app.selected_is_remote());
    app.fleet.hosts = vec![host()];
    assert_eq!(app.remote_host("box").unwrap().command, "cctop");
    assert!(app.remote_host("elsewhere").is_none());
}

/// What is spent here and elsewhere comes to what each has spent.
#[test]
fn what_two_machines_spent_is_added_up() {
    let mut here = session("a", true, "/x");
    here.total_cost = Some(5);
    let mut there = away("b", "box", None);
    there.total_cost = Some(7);
    let mut other = Session::new(Provider::Codex, "codex".to_string(), "c".to_string());
    other.total_cost = Some(11);
    let spend = compute_spend(&vec![here, there, other]);
    assert_eq!((spend.claude, spend.others), (12, 11));
}
