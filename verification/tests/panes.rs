use cctop::app::{App, Effect};
use cctop::model::{Names, Plan, Provider};
use cctop::tabs::{Pane, Running, Tab};

fn command() -> String {
    format!("{:?}", Provider::Claude).to_lowercase()
}

fn names() -> Names {
    Names {
        command: command(),
        title: format!("{:?}", Provider::Claude),
        file: format!("{}.md", command().to_uppercase()),
    }
}

fn test_app() -> App {
    App::new(Plan::Retail, "1.0.0".to_string(), names())
}

fn running(name: &str, label: &str) -> Running {
    Running {
        name: name.to_string(),
        pid: None,
        activity: None,
        label: Some(label.to_string()),
        profile: None,
        order: None,
        created: 0,
    }
}

fn named(name: &str) -> Tab {
    Tab::shared(&running(&format!("cctop-{name}"), name))
}

fn titles(app: &App) -> Vec<String> {
    app.tabs.iter().map(Tab::title).collect()
}

/// Closing a tab leaves you on the tab beside it, not on the dashboard.
#[test]
fn closing_a_tab_lands_on_its_neighbour() {
    // The middle of three: its number is now the third's.
    assert_eq!(App::landing(2, &[2], 2), 2);
    // The last one: the one before it.
    assert_eq!(App::landing(3, &[3], 2), 2);
    // The first of several: still a neighbour.
    assert_eq!(App::landing(1, &[1], 2), 1);
    // The only tab: the dashboard is all that is left.
    assert_eq!(App::landing(1, &[1], 0), 0);
    // A tab before the one being watched slides the view down.
    assert_eq!(App::landing(3, &[1], 2), 2);
    // Several at once, from either side of the view.
    assert_eq!(App::landing(4, &[1, 2], 3), 2);
    assert_eq!(App::landing(2, &[2, 3], 1), 1);
    // The dashboard is not a tab and never moves.
    assert_eq!(App::landing(0, &[1], 1), 0);
}

#[test]
fn closing_a_pane_leaves_the_next_agent_on_screen() {
    let mut app = test_app();
    for (i, name) in ["first", "second"].iter().enumerate() {
        app.tabs.push(Tab::new(Pane::new(name.to_string(), 100 + i as u32)));
    }
    app.tab = 1;
    app.close_pane();

    assert_eq!(app.tabs.len(), 1, "the closed tab stayed in the bar");
    assert_eq!(app.tab, 1, "closing the first tab left the view nowhere");
    assert_eq!(app.tabs[0].title(), "second", "the view landed on the wrong agent");
}

/// A tab dragged along the bar takes its place there, and the view stays on the
/// agent it was watching.
#[test]
fn a_dragged_tab_moves_without_moving_the_view() {
    let mut app = test_app();
    app.tabs = vec![named("a"), named("b"), named("c")];

    app.tab = 1;
    app.move_tab(1, 3);
    assert_eq!(titles(&app), ["b", "c", "a"]);
    assert_eq!(app.tab, 3);

    app.tab = 1; // "b"
    app.move_tab(3, 1); // "a" back to the front
    assert_eq!(titles(&app), ["a", "b", "c"]);
    assert_eq!(app.tab, 2, "the view followed the position, not the tab");

    // Neither end of a move can be the dashboard.
    app.move_tab(0, 2);
    app.move_tab(2, 0);
    assert_eq!(titles(&app), ["a", "b", "c"]);

    // The keyboard's half stops at both ends.
    app.tab = 1;
    app.move_workspace(-1);
    assert_eq!(titles(&app), ["a", "b", "c"], "the first tab has nowhere to go");
    app.move_workspace(1);
    assert_eq!(titles(&app), ["b", "a", "c"]);
    assert_eq!(app.tab, 2);
}

/// Only an agent that is the dashboard's own is stopped with its pane.
#[test]
fn closing_a_borrowed_pane_says_the_agent_was_left_running() {
    let mut pane = Pane::new("agent".to_string(), 4321);
    pane.owned = false;
    let mut app = test_app();
    app.tabs.push(Tab::new(pane));
    app.tab = 1;
    app.kill_pane();

    assert!(app.tabs.is_empty(), "the view outlived its close");
    let (status, _) = app.status.clone().expect("nothing was said");
    assert!(status.contains("not cctop's to stop"), "{status}");
    assert!(
        !app.effects.iter().any(|e| matches!(e, Effect::KillAgent { .. })),
        "closing a borrowed view stopped somebody else's agent"
    );
}

#[test]
fn an_owned_agent_is_stopped_with_its_pane() {
    let mut pane = Pane::new("agent".to_string(), 1);
    pane.agent_pid = Some(77);
    pane.owned = true;
    let mut app = test_app();
    app.tabs.push(Tab::new(pane));
    app.tab = 1;
    app.kill_pane();
    assert!(app.effects.iter().any(|e| matches!(e, Effect::KillAgent { pid: 77, label } if label == "agent")));
    app.agent_stopped("agent", Ok(()));
    let said = app.status.clone().unwrap().0;
    assert!(said.contains("agent"), "{said}");
    app.agent_stopped("agent", Err("no such process".to_string()));
    assert!(app.status.clone().unwrap().0.contains("no such process"));
}

/// A tab with no pane here can be closed all the same.
#[test]
fn a_shared_tab_can_be_closed_without_a_pane_to_close() {
    let label = format!("{} · Improve super cctop", command());
    let mut agent = running(&format!("cctop-{}-nosuchsession", command()), &label);
    agent.pid = Some(4321);
    let mut app = test_app();
    app.tabs.push(Tab::shared(&agent));
    app.tab = 1;
    // A tab with no pane is still a tab.
    app.drop_empty_tabs();
    assert_eq!(app.tabs.len(), 1);
    assert_eq!(app.tabs[0].title(), label);

    app.close_pane();
    assert!(app.tabs.is_empty(), "closing a shared tab left it in the bar");
    assert_eq!(app.tab, 0);
    let kill = app.effects.pop();
    let Some(Effect::KillSession { name, label }) = kill else {
        panic!("the session was not asked to stop");
    };
    assert_eq!(name, agent.name);
    app.session_stopped(&label, Ok(()));
    let (status, _) = app.status.clone().expect("nothing was said");
    assert!(status.contains("Improve super cctop"), "{status}");
}

/// Going to a tab with no pane asks for one, and only then shows it; one that
/// cannot be had leaves the view where it was and says why.
#[test]
fn a_tab_is_shown_once_it_has_been_attached() {
    let mut app = test_app();
    app.tabs = vec![named("a"), named("b")];
    app.go_to_tab(2);
    assert_eq!(app.tab, 0);
    assert!(matches!(app.effects.last(), Some(Effect::Attach { tab: 2 })));
    app.attached(2, Err("not here".to_string()));
    assert_eq!(app.tab, 0, "a tab that cannot be attached moved the view");
    assert_eq!(app.status.clone().unwrap().0, "Could not open b: not here");
    app.attached(2, Ok(Pane::new("b".to_string(), 9)));
    assert_eq!(app.tab, 2);
    assert!(!app.tabs[1].detached());
}

/// Agents that other dashboards started appear in the bar, and leave it with
/// their session.
#[test]
fn the_bar_follows_the_sessions_that_run() {
    let mut app = test_app();
    let list = vec![running("cctop-a", "a"), running("cctop-b", "b")];
    app.restore_running_tabs(&list);
    assert_eq!(titles(&app).len(), 2);
    let unlisted = app.unlisted_sessions(&vec![running("cctop-a", "a")]);
    let mut alive = cctop::keys::KeySet::new();
    alive.insert("cctop-a".to_string());
    app.sync_shared_tabs(&vec![running("cctop-a", "a")], &alive);
    assert_eq!(titles(&app), ["a"]);
    assert_eq!(unlisted, ["cctop-b"]);
}

/// The tab in view, and the pane in it that is typed into.
#[test]
fn the_tab_in_view_can_be_changed() {
    let mut app = test_app();
    assert!(app.active_tab().is_none());
    assert!(app.focused_pane().is_none());
    let mut split = Tab::new(Pane::new("left".to_string(), 1));
    split.panes.push(Pane::new("right".to_string(), 2));
    split.focus = 1;
    app.tabs = vec![Tab::new(Pane::new("one".to_string(), 3)), split];
    app.show_tab(2);
    assert_eq!(app.tab, 2);
    assert_eq!(app.active_tab().unwrap().panes.len(), 2);
    app.focused_pane().unwrap().label = "renamed".to_string();
    assert_eq!(app.tabs[1].panes[1].label, "renamed");
    assert_eq!(app.tabs[1].panes[0].label, "left");
    // Round the bar, the dashboard included.
    app.cycle_workspace(1);
    assert_eq!(app.tab, 0);
    app.cycle_workspace(-1);
    assert_eq!(app.tab, 2);
}

/// A view that is open already is gone to; another is opened behind the rest.
#[test]
fn a_view_is_opened_once() {
    let mut app = test_app();
    assert!(!app.open_view(7, None));
    assert!(app.open_view(7, Some(Pane::new("seven".to_string(), 7))));
    assert_eq!((app.tabs.len(), app.tab), (1, 1));
    app.tab = 0;
    assert!(app.open_view(7, None));
    assert_eq!((app.tabs.len(), app.tab), (1, 1));
}

/// Agents are in the bar once every so often it is looked at.
#[test]
fn the_bar_is_shared_now_and_then() {
    let mut app = test_app();
    assert!(app.share_due());
    app.shared_at = Some(0);
    app.now = 1_999;
    assert!(!app.share_due());
    app.now = 2_000;
    assert!(app.share_due());
    app.tabs = vec![named("a"), named("b")];
    app.save_tab_order();
    let orders = app.effects.iter().filter(|e| matches!(e, Effect::SetOrder { .. })).count();
    assert_eq!(orders, 2);
    assert!(app.open_rmux().contains("cctop-a"));
    assert!(!app.open_rmux().contains("cctop-z"));
}

/// The ring goes through the dashboard, and as many steps back end where they
/// began.
#[test]
fn walking_the_tabs_and_back_returns() {
    let pane = |name: &str| Pane::new(name.to_string(), 1);
    let mut app = test_app();
    app.tabs = vec![Tab::new(pane("a")), Tab::new(pane("b"))];
    app.cycle_workspace(-1);
    assert_eq!(app.tab, 2);
    app.cycle_workspace(1);
    assert_eq!(app.tab, 0);
    for delta in [1isize, -1, 2, 5, -7] {
        for at in 0..=2 {
            app.tab = at;
            app.cycle_workspace(delta);
            app.cycle_workspace(-delta);
            assert_eq!(app.tab, at, "{delta} from {at}");
        }
    }
    assert_eq!(titles(&app), ["a", "b"]);
}
