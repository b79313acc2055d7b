use cctop::app::App;
use cctop::model::{Names, Plan, Provider, Session};
use cctop::outside::Hue;
use cctop::panels::TABS;
use cctop::preview::{first_row, last_drawn, name_for_session, target_in, Answer, Capture, Snapshot, Target, Window, TAB};
use cctop::tabs::{Pane, Running, Tab};

fn command() -> String {
    format!("{:?}", Provider::Claude).to_lowercase()
}

fn test_app() -> App {
    let names = Names {
        command: command(),
        title: format!("{:?}", Provider::Claude),
        file: format!("{}.md", command().to_uppercase()),
    };
    App::new(Plan::Retail, "1.0.0".to_string(), names)
}

fn name(id: &str) -> String {
    format!("cctop-{}-{id}", command())
}

fn running(name: &str, pid: Option<u32>) -> Running {
    Running {
        name: name.to_string(),
        pid,
        activity: None,
        label: Some(command()),
        profile: None,
        order: None,
        created: 0,
    }
}

fn pane(pid: u32) -> Pane {
    Pane::new(command(), pid)
}

#[test]
fn the_panel_is_where_its_number_key_says() {
    assert_eq!(TABS[TAB], "Preview");
}

#[test]
fn a_row_finds_the_pane_its_agent_is_in() {
    let mut split = Tab::new(pane(1));
    split.panes.push(pane(4321));
    let tabs = vec![Tab::new(pane(2)), split];
    assert!(matches!(
        target_in(&tabs, Some(4321), &name("x")),
        Some(Target::Pane { tab: 1, pane: 1 })
    ));
    assert!(target_in(&tabs, Some(99), &name("x")).is_none());
}

#[test]
fn a_pane_just_resumed_is_found_before_its_agent_pid_is_known() {
    let mut pane = pane(1);
    pane.resumed = Some(name("abc"));
    let tabs = vec![Tab::new(pane)];
    assert!(matches!(
        target_in(&tabs, Some(4321), &name("abc")),
        Some(Target::Pane { tab: 0, pane: 0 })
    ));
    assert!(matches!(
        target_in(&tabs, None, &name("abc")),
        Some(Target::Pane { tab: 0, pane: 0 })
    ));
    assert!(target_in(&tabs, None, &name("def")).is_none());
}

#[test]
fn a_detached_tab_is_found_by_pid_or_by_session_name() {
    let tabs = vec![
        Tab::shared(&running(&name("one"), Some(10))),
        Tab::shared(&running(&name("two"), None)),
    ];
    assert!(matches!(
        target_in(&tabs, Some(10), &name("zzz")),
        Some(Target::Detached { tab: 0, name: n }) if n == name("one")
    ));
    assert!(matches!(
        target_in(&tabs, Some(11), &name("two")),
        Some(Target::Detached { tab: 1, name: n }) if n == name("two")
    ));
    // No pid read yet must not match a row that has none either.
    assert!(target_in(&tabs, None, &name("zzz")).is_none());
}

#[test]
fn a_screen_that_fits_is_drawn_from_its_top() {
    assert_eq!(first_row(10, 10, Some(9), Some(9)), 0);
    assert_eq!(first_row(4, 10, None, None), 0);
}

#[test]
fn a_tall_screen_keeps_the_rows_the_agent_drew_last() {
    // A 40-row screen whose prompt is on row 30, in an 8-row panel.
    assert_eq!(first_row(40, 8, Some(30), Some(33)), 26);
    // The cursor below the last drawn row wins, so a fresh prompt shows.
    assert_eq!(first_row(40, 8, Some(39), Some(20)), 32);
    // A short burst of output at the top of a tall screen stays at the top.
    assert_eq!(first_row(40, 8, Some(3), Some(2)), 0);
    // Nothing drawn anywhere: the top.
    assert_eq!(first_row(40, 8, None, None), 0);
}

#[test]
fn the_window_shifts_cells_and_cursor_together() {
    let mut capture = Capture::new("x".to_string());
    let shot = |cursor| Snapshot { cols: 10, rows: 6, cursor, bytes: b"a\r\nb\r\nc\r\nd\r\ne\r\nf".to_vec() };
    assert!(capture.apply(shot(Some((5, 1)))));
    let screen = capture.screen.as_ref().unwrap();
    assert_eq!(last_drawn(screen), Some(5));
    let window = Window { screen, top: 3 };
    assert_eq!(window.cell(0, 0).map(|c| c.text.as_str()), Some("d"));
    assert_eq!(window.cursor_position(), (2, 1));
    // A cursor above the window is out of range, never at row zero.
    assert!(capture.apply(shot(Some((0, 0)))));
    let window = Window { screen: capture.screen.as_ref().unwrap(), top: 3 };
    assert_eq!(window.cursor_position().0, u16::MAX);
}

#[test]
fn a_row_with_no_tab_says_how_to_open_one() {
    let mut app = test_app();
    app.sessions = vec![Session::new(Provider::Claude, command(), "abc".to_string())];
    app.refilter();
    app.bottom_tab = TAB;
    let text = app.preview_note().expect("a note");
    assert!(text.contains("R resumes it in one"), "{text}");
}

#[test]
fn the_panel_shows_the_bottom_of_the_tab_the_row_is_in() {
    let mut app = test_app();
    app.sessions = vec![Session::new(Provider::Claude, command(), "abc".to_string())];
    app.refilter();
    let mut pane = pane(0);
    pane.resumed = Some(name_for_session(&command(), "abc"));
    app.tabs.push(Tab::new(pane));
    app.bottom_tab = TAB;
    assert!(matches!(app.preview_target(), Some(Target::Pane { tab: 0, pane: 0 })));
    assert!(app.preview_note().is_none());
    let lines: Vec<String> = (0..24).map(|i| format!("line-{i:02}")).collect();
    let mut capture = Capture::new("x".to_string());
    capture.apply(Snapshot { cols: 80, rows: 24, cursor: None, bytes: lines.join("\r\n").into_bytes() });
    let screen = capture.screen.as_ref().unwrap();
    let top = first_row(24, 8, None, last_drawn(screen));
    let window = Window { screen, top };
    let row = |r: u16| (0..7).map(|c| window.cell(r, c).map_or(" ".to_string(), |c| c.text.clone())).collect::<String>();
    assert_eq!(row(7), "line-23", "the bottom row is missing");
    assert_eq!(row(0), "line-16", "the top should be clipped");
}

#[test]
fn a_capture_replays_into_one_parser_and_skips_a_repeat() {
    let mut capture = Capture::new(String::new());
    let screen = || Snapshot {
        cols: 20,
        rows: 3,
        cursor: Some((2, 4)),
        bytes: b"one\r\n\x1b[31mtwo\r\nthree".to_vec(),
    };
    assert!(capture.apply(screen()));
    let shown = capture.screen.as_ref().unwrap();
    assert_eq!((shown.rows, shown.cols), (3, 20));
    assert_eq!(shown.cell(1, 0).unwrap().text, "t");
    assert_eq!(shown.cell(1, 0).unwrap().fg, Hue::Indexed(1));
    assert_eq!(shown.cursor, (2, 4));
    assert!(!capture.apply(screen()), "an unchanged screen is not redrawn");

    // A smaller screen clears what the bigger one left behind.
    assert!(capture.apply(Snapshot { cols: 10, rows: 2, cursor: None, bytes: b"x".to_vec() }));
    let shown = capture.screen.as_ref().unwrap();
    assert_eq!((shown.rows, shown.cols), (2, 10));
    assert_eq!(shown.cells.iter().map(|c| c.text.as_str()).collect::<String>(), "x");
    assert_eq!(shown.cell(0, 0).unwrap().text, "x");
    assert!(shown.hidden);
}

/// The terminal is kept: what an earlier capture set still acts, unless the screen
/// has become narrower.
#[test]
fn a_capture_is_replayed_on_the_terminal_there_is() {
    let of = |cols: u16, bytes: &[u8]| Snapshot { cols, rows: 3, cursor: None, bytes: bytes.to_vec() };
    let text = |c: &Capture, row: u16| c.screen.as_ref().unwrap().cell(row, 0).unwrap().text.clone();
    let mut capture = Capture::new(String::new());
    // Only the first two rows scroll from then on.
    assert!(capture.apply(of(10, b"\x1b[1;2r")));
    assert!(capture.apply(of(10, b"a\r\nb\r\nc")));
    assert_eq!((text(&capture, 0), text(&capture, 1), text(&capture, 2)), ("b".into(), "c".into(), "".into()));
    assert!(capture.apply(of(12, b"a\r\nb\r\nd")));
    assert_eq!((text(&capture, 0), text(&capture, 1), text(&capture, 2)), ("b".into(), "d".into(), "".into()));
    assert!(capture.apply(of(8, b"a\r\nb\r\nc")));
    assert_eq!((text(&capture, 0), text(&capture, 1), text(&capture, 2)), ("a".into(), "b".into(), "c".into()));
    // Half of a wide character on the screen that is not on show, then written over.
    assert!(capture.apply(of(8, "\x1b[1;7Hあ\x1b[?47h".as_bytes())));
    assert!(capture.apply(of(7, b"\x1b[?47l\x1b[1;7Hx")));
    assert_eq!(capture.screen.as_ref().unwrap().cell(0, 6).unwrap().text, "x");
}

/// A screen is asked for, and drawn when it comes; a screen that was lost is not
/// waited for.
#[test]
fn a_detached_row_is_captured() {
    let mut app = test_app();
    app.sessions = vec![Session::new(Provider::Claude, command(), "abc".to_string())];
    app.refilter();
    app.tabs.push(Tab::shared(&running(&name("abc"), None)));
    app.bottom_tab = TAB;
    assert!(!app.pump_preview(Answer::Waiting));
    assert_eq!(app.effects.len(), 1, "no screen was asked for");
    let drew = app.pump_preview(Answer::Screen(Some(Snapshot {
        cols: 10,
        rows: 2,
        cursor: None,
        bytes: b"hello".to_vec(),
    })));
    assert!(drew);
    assert_eq!(app.preview.screen.as_ref().unwrap().cell(0, 0).unwrap().text, "h");
    // A screen no terminal can be had for is no screen.
    app.now = 1_000;
    assert!(!app.pump_preview(Answer::Waiting), "nothing had come yet");
    assert!(app.pump_preview(Answer::Screen(Some(Snapshot { cols: 1, rows: 1, cursor: None, bytes: Vec::new() }))));
    assert!(app.preview.failed);
}

/// A screen can be replayed where a terminal of its size takes whatever is written
/// to it, the widest character and a tab from the last column among it.
#[test]
fn a_screen_is_replayed_where_a_terminal_can_be_had() {
    let of = |rows: u16, cols: u16, bytes: &[u8]| Snapshot { cols, rows, cursor: None, bytes: bytes.to_vec() };
    for (rows, cols) in [(1, 80), (0, 80), (24, 2), (24, 65_528), (24, u16::MAX)] {
        assert!(!of(rows, cols, b"").can_be_replayed(), "{rows} by {cols}");
    }
    for (rows, cols, bytes) in [
        (2, 3, "\u{17d8}\u{17d8}x".as_bytes()),
        (2, 65_527, b"\x1b[65535G\t\t".as_slice()),
        (2, 65_527, b"\x1b[65535Gx\t".as_slice()),
    ] {
        let screen = of(rows, cols, bytes);
        assert!(screen.can_be_replayed());
        let mut capture = Capture::new("x".to_string());
        assert!(capture.apply(screen));
        assert!(!capture.apply(of(rows, cols, bytes)), "an unchanged screen was drawn again");
    }
}
