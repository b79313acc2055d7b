use cctop::app::{App, ColumnId, Effect, Row};
use cctop::data::SessionData;
use cctop::model::{Names, Plan, Provider, Session, Subagent, SubagentStatus};

/// The agent's command, as its provider is spelled.
fn command() -> String {
    format!("{:?}", Provider::Claude).to_lowercase()
}

fn names() -> Names {
    Names {
        command: command(),
        title: format!("{:?}", Provider::Claude),
        file: format!("{}.md", command().to_uppercase()),
    }
}

fn test_app() -> App {
    App::new(Plan::Retail, "1.0.0".to_string(), names())
}

fn session(id: &str, running: bool, label: &str) -> Session {
    let mut s = Session::new(Provider::Claude, command(), id.to_string());
    s.inferred_running = running;
    s.label_source = label.to_string();
    s
}

fn with_subagents(id: &str, names: &[&str]) -> Session {
    let mut s = session(id, true, id);
    s.subagents = names
        .iter()
        .map(|n| Subagent {
            agent_id: format!("agent-{n}"),
            agent_type: "general-purpose".to_string(),
            description: n.to_string(),
            model: format!("{}-opus-5", command()),
            started_at: None,
            last_active: None,
            duration_ms: 0,
            status: SubagentStatus::Running,
            cost: 0,
            tool_count: 0,
            context: None,
            purged: false,
        })
        .collect();
    s
}

/// Children belong under the parent they ran for.
#[test]
fn expanded_subagents_sit_directly_under_their_parent() {
    let mut app = test_app();
    app.sessions = vec![with_subagents("a", &["one", "two"]), session("b", true, "b")];
    app.refilter();
    assert_eq!(app.visible.len(), 2, "collapsed: one row per session");

    let key = app.sessions[0].key();
    app.expanded.insert(key);
    app.refilter();

    let at = app.visible.iter().position(|&r| r == Row::Session(0)).expect("parent row");
    assert_eq!(app.visible.len(), 4);
    assert_eq!(
        &app.visible[at..at + 3],
        &[
            Row::Session(0),
            Row::Subagent { parent: 0, index: 0 },
            Row::Subagent { parent: 0, index: 1 },
        ]
    );
}

/// The cursor is anchored on what it was pointing at, a child included.
#[test]
fn the_cursor_stays_on_a_child_row_across_a_refresh() {
    let mut app = test_app();
    app.sessions = vec![with_subagents("a", &["one", "two"])];
    let key = app.sessions[0].key();
    app.expanded.insert(key);
    app.refilter();
    app.selected = 2;

    app.refilter();

    assert_eq!(app.visible[app.selected], Row::Subagent { parent: 0, index: 1 });
    assert_eq!(app.selected_subagent().map(|s| s.description.clone()), Some("two".to_string()));
}

/// A child row resolves to its parent, and is told apart from it.
#[test]
fn a_child_row_owns_its_parent_but_is_not_it() {
    let mut app = test_app();
    app.sessions = vec![with_subagents("a", &["one"])];
    let key = app.sessions[0].key();
    app.expanded.insert(key);
    app.refilter();

    app.selected = 0;
    assert!(!app.on_subagent());
    assert!(app.selected_subagent().is_none());

    app.selected = 1;
    assert!(app.on_subagent());
    assert_eq!(
        app.selected_session().map(|s| s.session_id.clone()),
        Some("a".to_string()),
        "a child still resolves to the session that owns it"
    );
    assert!(app.selected_subagent().is_some());
}

/// Collapsing from a child row leaves the cursor on a row that still exists.
#[test]
fn collapsing_from_a_child_lands_the_cursor_on_its_parent() {
    let mut app = test_app();
    app.sessions = vec![with_subagents("a", &["one", "two"])];
    let key = app.sessions[0].key();
    app.expanded.insert(key);
    app.refilter();
    app.selected = 1;

    app.toggle_expanded();

    assert_eq!(app.visible.len(), 1);
    assert_eq!(app.visible[app.selected], Row::Session(0));
    assert!(app.expanded.is_empty());
}

/// A hook is the agent reporting for itself, and wins over the transcript.
#[test]
fn a_hooks_word_retires_a_subagent_the_transcript_still_calls_running() {
    let mut app = test_app();
    app.sessions = vec![with_subagents("a", &["one", "two"])];
    assert!(app.sessions[0].subagents.iter().all(|s| s.status == SubagentStatus::Running));

    app.finished_agents.insert("one".to_string());
    app.apply_finished_agents();

    let status = |i: usize| app.sessions[0].subagents[i].status;
    assert_eq!(status(0), SubagentStatus::Done);
    assert_eq!(status(1), SubagentStatus::Running, "only the subagent named may be retired");
}

/// A session with nothing to show says so.
#[test]
fn expanding_a_session_without_subagents_says_so() {
    let mut app = test_app();
    app.sessions = vec![session("a", true, "a")];
    app.refilter();

    app.toggle_expanded();

    assert!(app.expanded.is_empty());
    assert!(app.status.is_some(), "the refusal has to be visible");
}

#[test]
fn runtime_tabs_are_unavailable_for_stopped_sessions() {
    let mut app = test_app();
    app.sessions = vec![session("stopped", false, "x")];
    app.refilter();
    assert!(!app.tab_available(1));
    assert!(!app.tab_available(2));

    app.bottom_tab = 0;
    app.cycle_tab(1);
    assert_eq!(app.bottom_tab, 3);
}

#[test]
fn shift_home_and_end_reach_both_ends_of_a_panel() {
    let mut app = test_app();
    app.bottom_tab = 0;
    app.panel_max_scroll = 40;

    app.scroll_active_panel(i32::MAX);
    assert_eq!(app.info_scroll, 40, "End stops at the last line, not past it");
    app.scroll_active_panel(i32::MIN);
    assert_eq!(app.info_scroll, 0);

    app.scroll_active_panel(999);
    app.scroll_active_panel(-1);
    assert_eq!(app.info_scroll, 39);
}

#[test]
fn selecting_stopped_session_leaves_runtime_tab() {
    let mut app = test_app();
    app.sessions = vec![session("running", true, "x"), session("stopped", false, "y")];
    app.visible = vec![Row::Session(0), Row::Session(1)];
    app.bottom_tab = 1;
    app.move_selection(1);
    assert_eq!(app.bottom_tab, 0);
}

#[test]
fn selection_follows_the_session_across_a_resort() {
    let mut app = test_app();
    app.sessions = vec![session("a", false, "/x/a"), session("b", false, "/x/b")];
    app.sort_col = ColumnId::Project;
    app.sort_asc = true;
    app.refilter();
    app.selected = 1;
    let before = app.selected_session().unwrap().key();

    app.sort_asc = false;
    app.refilter();
    assert_eq!(app.selected_session().unwrap().key(), before);
    assert_eq!(app.selected, 0);
}

#[test]
fn selection_stays_in_bounds_when_sessions_disappear() {
    let mut app = test_app();
    app.sessions = (0..5).map(|i| session(&i.to_string(), false, "/x")).collect();
    app.refilter();
    app.selected = 4;
    app.sessions.truncate(2);
    app.refilter();
    assert!(app.selected < app.visible.len());
}

#[test]
fn empty_list_does_not_panic_on_navigation() {
    let mut app = test_app();
    app.refilter();
    app.move_selection(1);
    app.move_selection(-1);
    assert_eq!(app.selected, 0);
    assert!(app.selected_session().is_none());
}

#[test]
fn sort_toggles_on_repeat_and_resets_on_change() {
    let mut app = test_app();
    app.sort_col = ColumnId::Cost;
    app.sort_asc = true;
    app.set_sort(ColumnId::Cost);
    assert!(!app.sort_asc, "same column must flip direction");
    app.set_sort(ColumnId::Cpu);
    assert!(app.sort_asc, "new column starts ascending");
    assert_eq!(app.sort_col, ColumnId::Cpu);
}

/// What is copied is the command that resumes the session on the first panel, and
/// the transcript's path on the others.
#[test]
fn copying_takes_the_command_or_the_path() {
    let mut app = test_app();
    let mut s = session("abc", false, "/x");
    s.data_file = Some("/t/abc.jsonl".to_string());
    app.sessions = vec![s];
    app.refilter();
    app.copy_selection();
    assert!(matches!(&app.effects[0], Effect::Copy(t) if *t == format!("{} --resume abc", command())));
    assert_eq!(app.status.as_ref().unwrap().0, format!("Copied: {} --resume abc", command()));
    app.bottom_tab = 5;
    app.copy_selection();
    assert!(matches!(&app.effects[1], Effect::Copy(t) if t == "/t/abc.jsonl"));
}

/// Half a page is half the table, at least one row and at most a page; a page
/// before the first draw.
#[test]
fn half_a_page_is_within_bounds() {
    let mut app = test_app();
    assert_eq!(app.list_height, 0);
    assert_eq!(app.half_page(), 10);
    app.list_height = 1;
    assert_eq!(app.half_page(), 1);
    app.list_height = 9;
    assert_eq!(app.half_page(), 4);
    app.list_height = 90;
    assert_eq!(app.half_page(), 10);
}

/// The panels of a row are asked for when the cursor reaches it.
#[test]
fn a_selected_row_has_its_transcript_read() {
    let mut app = test_app();
    let mut s = session("abc", false, "/x");
    s.data_file = Some("/t/abc.jsonl".to_string());
    app.sessions = vec![s];
    app.refilter();
    app.sync_panel_data("stamp");
    assert!(app.effects.iter().any(|e| matches!(e, Effect::LoadData(s) if s.session_id == "abc")));
    assert_eq!(app.panel_key, format!("{}:abc", command()));
}

/// Before the first draw a subagent's own transcript is beside its parent's.
#[test]
fn a_subagents_transcript_is_beside_its_parents() {
    let mut app = test_app();
    let mut s = with_subagents("abc", &["one"]);
    s.data_file = Some("/t/abc.jsonl".to_string());
    app.sessions = vec![s];
    assert_eq!(
        app.panel_file(Row::Subagent { parent: 0, index: 0 }),
        Some("/t/abc/subagents/agent-one.jsonl".to_string())
    );
}

/// All are shown where none is, and none where any is.
#[test]
fn every_session_is_opened_or_closed_at_once() {
    let mut app = test_app();
    app.sessions = vec![with_subagents("a", &["one"]), session("b", true, "b"), with_subagents("c", &["two"])];
    app.refilter();
    app.toggle_expanded_all();
    assert_eq!(app.visible.len(), 5);
    assert!(app.is_expanded(&app.sessions[0]));
    assert!(!app.is_expanded(&app.sessions[1]), "there is nothing to show");
    app.toggle_expanded_all();
    assert_eq!(app.visible.len(), 3);
}

/// The filter of the tool log goes round, and a click opens an invocation.
#[test]
fn the_tool_log_is_filtered_and_opened() {
    let mut app = test_app();
    app.cycle_tool_filter(1);
    assert_eq!(app.tool_tab, 0, "there is nothing to filter");
    let mut data = SessionData::new();
    data.metrics.tools = vec![("Bash".to_string(), 2), ("Read".to_string(), 5)];
    app.panel_data = Some(data);
    app.cycle_tool_filter(1);
    assert_eq!((app.tool_tab, app.bottom_tab), (1, 3));
    app.cycle_tool_filter(-2);
    assert_eq!(app.tool_tab, 2, "it goes round");

    app.tool_owners = vec![Some("first".to_string()), None];
    app.toggle_tool_expansion(0);
    assert_eq!(app.tool_expanded.as_deref(), Some("first"));
    assert!(!app.tool_follow);
    app.toggle_tool_expansion(0);
    assert_eq!(app.tool_expanded, None);
    app.toggle_tool_expansion(1);
    assert_eq!(app.tool_expanded, None);
}
