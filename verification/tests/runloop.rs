use cctop::app::{App, Effect, Spend};
use cctop::data::SessionData;
use cctop::keys::KeyMap;
use cctop::model::{Names, Plan, Provider, Session};
use cctop::quota::{AccountSource, ProfileQuota, ProviderQuota, ProviderStatus, Quota, Window};
use cctop::runloop::{
    asks_for_files, due, farewell, hidden_columns, next_poll, record_burn, MachineColumn, Pulse, Response, Snapshot,
    FULL_WALK_INTERVAL, MOUSE_ON, STATUS_STAYS,
};
use cctop::settings::{Binding, Keymap, Setting, SettingValue, Settings};
use cctop::keyboard::KeyCode;

fn command() -> String {
    format!("{:?}", Provider::Claude).to_lowercase()
}

fn title() -> String {
    format!("{:?}", Provider::Claude)
}

fn names() -> Names {
    Names { command: command(), title: title(), file: format!("{}.md", command().to_uppercase()) }
}

fn test_app() -> App {
    App::new(Plan::Retail, "1.0.0".to_string(), names())
}

fn session(id: &str, running: bool, label: &str) -> Session {
    let mut s = Session::new(Provider::Claude, command(), id.to_string());
    s.inferred_running = running;
    s.label_source = label.to_string();
    s
}

fn spend() -> Spend {
    Spend { claude: 0, others: 0 }
}

fn idle() -> Pulse {
    Pulse { last_refresh: 0, last_full_walk: 0, in_flight: false, blink: false, annotated: false, rows: false }
}

/// One walk at a time, and the next when it is due.
#[test]
fn one_walk_is_in_flight() {
    let mut app = test_app();
    let mut pulse = idle();
    app.now = 1_999;
    assert!(!due(&pulse, app.now, 2_000));
    app.refresh(&mut pulse, 2_000, false, false);
    assert!(app.effects.is_empty());
    app.now = 2_000;
    app.refresh(&mut pulse, 2_000, false, false);
    assert!(matches!(app.effects.last(), Some(Effect::RefreshLive)));
    assert!(pulse.in_flight);
    app.now = 9_000;
    app.refresh(&mut pulse, 2_000, false, false);
    assert_eq!(app.effects.len(), 1, "a second walk was begun");
    // What comes back ends it.
    app.respond(&mut pulse, Response::LiveRows(vec![], spend()));
    assert!(!pulse.in_flight);
    app.now = FULL_WALK_INTERVAL + 1;
    app.refresh(&mut pulse, 2_000, false, false);
    assert!(matches!(app.effects.last(), Some(Effect::Refresh)));
    assert!(asks_for_files(&idle(), 3_000, false));
    assert!(!asks_for_files(&idle(), 3_000, true));
}

/// A row that was read is in the table once, whatever order they come in.
#[test]
fn a_row_takes_its_own_place() {
    let mut app = test_app();
    let mut pulse = Pulse::new(0);
    app.respond(&mut pulse, Response::Discovered(vec![session("a", false, "/x"), session("b", false, "/y")]));
    assert_eq!(app.sessions.len(), 2);
    app.respond(&mut pulse, Response::Annotated(session("a", true, "/x")));
    assert_eq!(app.sessions.len(), 2);
    let a = app.sessions.iter().find(|s| s.session_id == "a").unwrap();
    assert!(a.inferred_running);
    app.settle(&mut pulse, true, KeyMap::new());
    assert_eq!(app.visible.len(), 2);
    app.respond(&mut pulse, Response::Sessions(vec![session("b", true, "/y")], spend()));
    assert_eq!(app.sessions.len(), 1);
}

/// A session that was deleted is gone, and one that was not stays and says why.
#[test]
fn a_deleted_session_leaves_the_table() {
    let mut app = test_app();
    let mut pulse = Pulse::new(0);
    app.sessions = vec![session("a", false, "/x"), session("b", false, "/y")];
    app.refilter();
    let key = app.sessions[0].key();
    app.respond(&mut pulse, Response::Deleted(key.clone(), Err("read-only".to_string())));
    assert_eq!(app.sessions.len(), 2);
    assert!(app.status.clone().unwrap().0.contains("read-only"));
    app.respond(&mut pulse, Response::Deleted(key.clone(), Ok(())));
    assert_eq!(app.sessions.len(), 1);
    assert_ne!(app.sessions[0].key(), key);
}

#[test]
fn answers_reach_the_screen() {
    let mut app = test_app();
    let mut pulse = Pulse::new(0);
    app.sessions = vec![session("a", false, "/x")];
    app.refilter();
    app.respond(&mut pulse, Response::UpdateAvailable("2.0.0".to_string()));
    assert_eq!(app.desk.update_available.as_deref(), Some("2.0.0"));
    app.respond(&mut pulse, Response::KeysSent(Err("not running".to_string())));
    assert!(app.status.clone().unwrap().0.contains("not running"));
    app.respond(&mut pulse, Response::Terminated("a".to_string(), Err("no permission".to_string())));
    assert!(app.status.clone().unwrap().0.contains("no permission"));
    app.respond(&mut pulse, Response::Insight("report".to_string()));
    assert_eq!(app.desk.insight.as_deref(), Some("report"));
    let key = app.sessions[0].key();
    app.panel_key = key.clone();
    app.respond(&mut pulse, Response::Data(key, SessionData::new()));
    assert!(app.panel_data.is_some());
    app.respond(&mut pulse, Response::Remote("box".to_string(), Snapshot::Failed("refused".to_string())));
    assert_eq!(app.fleet.errors.get("box").map(String::as_str), Some("refused"));
    app.respond(&mut pulse, Response::Remote("box".to_string(), Snapshot::Rows(vec![])));
    assert!(app.fleet.errors.get("box").is_none());
}

/// What was said stays a while and goes.
#[test]
fn a_status_expires() {
    let mut app = test_app();
    app.set_status("said".to_string());
    app.now = STATUS_STAYS;
    app.expire_status();
    assert!(app.status.is_some());
    app.now = STATUS_STAYS + 1;
    app.expire_status();
    assert!(app.status.is_none());
    app.desk.pasted_at = Some(1_000);
    app.now = 6_000;
    app.expire_pasted();
    assert!(app.desk.pasted_at.is_some());
    app.now = 6_001;
    app.expire_pasted();
    assert!(app.desk.pasted_at.is_none());
    let mut pulse = idle();
    app.needs_redraw = false;
    app.tick_blink(&mut pulse, true, false);
    assert!(!app.needs_redraw);
    app.tick_blink(&mut pulse, false, true);
    assert!(app.needs_redraw);
    app.on_lifecycle(&mut pulse);
    assert!(app.wait(&idle(), 2_000, false) <= 2_000);
}

#[test]
fn the_loop_ends_with_a_code() {
    let mut app = test_app();
    assert_eq!(app.over(None), None);
    assert_eq!(app.over(Some(3)), Some(3));
    app.should_quit = true;
    assert_eq!(app.over(None), Some(0));
    assert!(farewell(0).is_none());
    assert!(farewell(2).unwrap().contains('2'));
    assert!(MOUSE_ON.contains("?1000h"));
}

/// The soonest account is the one waited for.
#[test]
fn accounts_are_polled_on_their_own_clocks() {
    assert_eq!(next_poll(&vec![], 60), 60);
    assert_eq!(next_poll(&vec![90, 20, 40], 60), 20);
    let hidden = hidden_columns(0, 1, 1);
    assert_eq!(hidden.len(), 2);
    assert!(hidden.iter().any(|c| matches!(c, MachineColumn::Host)));
    assert!(hidden.iter().any(|c| matches!(c, MachineColumn::Profile)));
}

/// A window that was read is recorded; an account that was not is not.
#[test]
fn the_burn_is_recorded() {
    let account = |name: &str, status| ProfileQuota {
        profile: name.to_string(),
        source: AccountSource::Directory,
        status,
    };
    let quota = Quota {
        names: names(),
        claude: vec![account(
            "default",
            ProviderStatus::Known(ProviderQuota {
                plan: Some("max".to_string()),
                windows: vec![Window { label: "5h".to_string(), pct: 12, duration: None, resets_at: Some(9) }],
                limit_reached: false,
            }),
        )],
        codex: vec![account("default", ProviderStatus::Pending)],
    };
    let burn = record_burn(&quota);
    assert_eq!(burn.len(), 1);
    assert_eq!(burn[0].provider, command());
    assert_eq!((burn[0].label.as_str(), burn[0].pct, burn[0].resets_at), ("5h", 12, Some(9)));
    assert_eq!(burn[0].plan.as_deref(), Some("max"));
}

fn setting(name: &str, value: &str) -> Setting {
    Setting { name: name.to_string(), value: value.to_string(), set: false, what: String::new() }
}

fn binding(action: &str, key: &str) -> Binding {
    Binding { action: action.to_string(), default: key.to_string(), what: String::new(), key: key.to_string() }
}

fn write(app: &App) -> (String, String, Option<String>) {
    let Some(Effect::WriteSetting(w)) = app.effects.last() else {
        panic!("nothing was written");
    };
    let value = w.value.as_ref().map(|v| match v {
        SettingValue::Flag(b) => b.to_string(),
        SettingValue::Text(t) => t.clone(),
        SettingValue::Number(n) => n.clone(),
    });
    (w.table.clone(), w.name.clone(), value)
}

fn triple(a: &str, b: &str, c: Option<&str>) -> (String, String, Option<String>) {
    (a.to_string(), b.to_string(), c.map(str::to_string))
}

/// A toggle flips, a theme turns, and anything else opens a field.
#[test]
fn a_setting_is_changed_by_its_kind() {
    let mut app = test_app();
    app.config.file = Some("/home/x/.config/cctop.toml".to_string());
    app.config.settings.entries =
        vec![setting("auto_update", "true"), setting("theme", "\"dark\""), setting("compact_threshold", "80")];
    app.config.settings.bindings = vec![binding("quit", "q"), binding("help", "?")];
    app.settings_activate();
    assert_eq!(write(&app), triple("settings", "auto_update", Some("false")));
    app.config.cursor = 1;
    app.settings_activate();
    assert_eq!(write(&app).1, "theme");
    assert_ne!(write(&app).2.as_deref(), Some("dark"));
    app.config.cursor = 2;
    app.settings_activate();
    assert_eq!(app.config.input.as_deref(), Some("80"));
    app.config.input = Some(" 900 ".to_string());
    app.settings_commit_input(None);
    assert_eq!(app.status.clone().unwrap().0, "compact_threshold is a percentage, 1 to 100");
    app.config.input = Some("75".to_string());
    app.settings_commit_input(Some("75".to_string()));
    assert_eq!(write(&app), triple("settings", "compact_threshold", Some("75")));
    app.settings_reset();
    assert_eq!(write(&app), triple("settings", "compact_threshold", None));
}

/// A key waits for its new one; its own default is written as none.
#[test]
fn a_key_is_captured() {
    let mut app = test_app();
    app.config.file = Some("/home/x/.config/cctop.toml".to_string());
    app.config.settings.bindings = vec![binding("quit", "q"), binding("help", "?")];
    app.settings_activate();
    assert!(app.config.capture);
    app.settings_capture_key(KeyCode::Char('z'), Some("z".to_string()));
    assert_eq!(write(&app), triple("keys", "quit", Some("z")));
    assert!(!app.config.capture);
    app.settings_activate();
    app.settings_capture_key(KeyCode::Char('q'), Some("q".to_string()));
    assert_eq!(write(&app), triple("keys", "quit", None));
    app.settings_activate();
    app.settings_capture_key(KeyCode::Null, None);
    assert_eq!(app.status.clone().unwrap().0, "That key cannot be written in the config file");
    app.settings_activate();
    let before = app.effects.len();
    app.settings_capture_key(KeyCode::Esc, Some("esc".to_string()));
    assert_eq!(app.effects.len(), before);
}

/// The file is read again when it has changed, and what was wrong in it is said.
#[test]
fn the_settings_are_read_again() {
    let mut app = test_app();
    assert!(!app.settings_stale(5), "there is no file");
    app.config.file = Some("/home/x/.config/cctop.toml".to_string());
    assert!(app.settings_stale(5));
    let settings = Settings { entries: vec![setting("theme", "dark")], bindings: vec![], problems: vec!["a".to_string()] };
    app.reload_settings(5, settings, Keymap { keys: vec![] }, vec!["b".to_string()]);
    assert_eq!(app.config.settings.problems, ["a", "b"]);
    assert!(!app.settings_stale(5));
    app.config.cursor = 0;
    app.settings_activate();
    let Some(Effect::WriteSetting(w)) = app.effects.pop() else {
        panic!("nothing was written");
    };
    app.setting_written(&w, Err("read-only".to_string()));
    assert_eq!(app.status.clone().unwrap().0, "Could not save: read-only");
    assert!(app.settings_stale(5), "what was written is read back");
    app.setting_written(&w, Ok(()));
    assert!(app.status.clone().unwrap().0.starts_with("Saved "));
}

/// A hook that was repointed is said, and one that wants looking at is said instead.
#[test]
fn hooks_are_looked_at_on_the_way_in() {
    let mut app = test_app();
    app.hooks_checked(vec![], false);
    assert!(app.status.is_none());
    app.hooks_checked(vec!["one".to_string(), "two".to_string()], false);
    assert_eq!(app.status.clone().unwrap().0, "two");
    app.hooks_checked(vec!["one".to_string()], true);
    assert_eq!(app.status.clone().unwrap().0, "Agent hooks need attention — press h");
}

/// Deleting a marked session takes it off the count, and no other.
#[test]
fn a_deleted_session_is_off_the_count() {
    let mut app = test_app();
    let mut pulse = idle();
    for key in ["a", "b", "c"] {
        app.desk.marked.insert(key.to_string());
    }
    app.respond(&mut pulse, Response::Deleted("b".to_string(), Ok(())));
    assert_eq!(app.desk.marked.items.len(), 2);
    app.respond(&mut pulse, Response::Deleted("b".to_string(), Ok(())));
    assert_eq!(app.desk.marked.items.len(), 2);
}

/// A panel of more lines than can be counted is scrolled as far as can be.
#[test]
fn a_very_long_panel_can_be_scrolled() {
    let mut app = test_app();
    app.bottom_tab = 3;
    app.tool_follow = true;
    assert_eq!(app.settle_scroll(65_536, 10, Vec::new()), 65_525);
    assert_eq!(app.settle_scroll(30, 10, Vec::new()), 20);
}
