use cctop::app::{App, ColumnId, Effect, Mode};
use cctop::bar::{elide, Attention};
use cctop::footer::{corner_place, fit_hints, fit_hints_at, hint, hyperlink_cell, link_label, shorten_host, Corner, LINK_MAX};
use cctop::geometry::Rect;
use cctop::keyboard::{Key, KeyCode};
use cctop::layout::Layout;
use cctop::modals::menu::{menu_rows, row_menu, Item};
use cctop::model::{Names, Plan, Provider};
use cctop::overview::{breakdown, columns, machine, spending, Stats};
use cctop::quota::{
    limits, pane_quota, quota_color, quota_suffix, AccountSource, ProfileQuota, ProviderQuota, ProviderStatus, Quota,
    QuotaDetail, Window,
};
use cctop::render::{bottom_height, granted, under_bar};
use cctop::share::Opening;
use cctop::styled::{Ink, Line, Text};
use cctop::tabs::{Pane, Tab};

fn command() -> String {
    format!("{:?}", Provider::Claude).to_lowercase()
}

fn title() -> String {
    format!("{:?}", Provider::Claude)
}

fn names() -> Names {
    Names { command: command(), title: title(), file: format!("{}.md", command().to_uppercase()) }
}

fn test_app() -> App {
    App::new(Plan::Retail, "1.0.0".to_string(), names())
}

fn window(label: &str, pct: u32, resets_at: i64) -> Window {
    Window { label: label.to_string(), pct, duration: None, resets_at: Some(resets_at) }
}

fn known() -> ProviderStatus {
    ProviderStatus::Known(ProviderQuota {
        plan: None,
        windows: vec![window("5h", 37, 10_000), window("7d", 21, 500_000)],
        limit_reached: false,
    })
}

fn words(t: &Text) -> Vec<String> {
    t.lines.iter().map(|l| l.words()).collect()
}

/// The label is what is on screen and the token is not, but the link a click
/// follows still carries it.
#[test]
fn the_share_label_shows_the_host_and_the_link_keeps_the_token() {
    let url = "https://few-words-here.trycloudflare.com/?t=secret";
    assert_eq!(link_label(url), "⧉ few-words-he…trycloudflare.com");
    assert_eq!(link_label("http://127.0.0.1:7777/?t=x"), "⧉ 127.0.0.1:7777");
    let long = link_label("https://tribute-resistance-resolved-moscow.trycloudflare.com/?t=x");
    assert!(long.starts_with("⧉ tribute"), "{long:?}");
    assert!(long.ends_with("trycloudflare.com"), "{long:?}");
    assert!(long.chars().count() <= LINK_MAX + 2, "{long:?}");
    assert_eq!(shorten_host("short.io"), "short.io");

    let opening = hyperlink_cell(&link_label(url), url).expect("a link");
    assert!(opening.contains(url), "{opening:?}");
    assert!(opening.starts_with("\x1b]8;;"));
    assert!(opening.ends_with("\x1b]8;;\x1b\\"));
}

/// The corner is hard against the right edge, one column short of it.
#[test]
fn the_share_button_sits_in_the_bottom_right_corner() {
    let app = test_app();
    let (cols, rows) = (80u16, 24u16);
    let area = Rect::new(0, rows - 1, cols, 1);
    let corner = app.share_corner();
    let label = corner.label();
    let width = label.chars().count();
    let (reserved, a) = corner_place(area, width).expect("no share hit region");
    let b = a + width as u16;
    assert_eq!((reserved as usize, b), (width + 2, cols - 1));
    let footer = app.footer_line(area, None).0.words();
    assert!(footer.contains("Quit"), "{footer:?}");
    assert!(footer.chars().count() <= a as usize, "{footer:?}");
    let mut layout = Layout::new();
    layout.share_corner = Some((rows - 1, a, b));
    let row = rows - 1;
    assert!(layout.share_corner_at(a, row));
    assert!(layout.share_corner_at(b - 1, row));
    assert!(!layout.share_corner_at(b, row));
    assert!(!layout.share_corner_at(a - 1, row));
}

/// With no tunnel the corner is the button that would open one, and the first
/// click only arms it.
#[test]
fn the_share_corner_asks_before_it_publishes() {
    let mut app = test_app();
    assert!(app.serving.is_none());
    assert_eq!(app.share_corner().label(), "⧉ share");

    app.desk.share_arm = true;
    let armed = app.share_corner();
    assert_eq!(armed.label(), "⧉ publish to the internet?");
    assert!(matches!(armed, Corner::Button(_)));
}

/// While the edge is being dialled the corner spins.
#[test]
fn the_share_corner_spins_while_the_tunnel_is_being_opened() {
    let mut app = test_app();
    app.share_opening = Some(Opening { since: 0 });

    let label = app.share_corner().label().to_string();
    assert!(label.ends_with(" opening a tunnel…"), "{label:?}");
    assert_eq!(label.chars().count(), " opening a tunnel…".chars().count() + 1);

    // A click at it while it spins is impatience, not a second tunnel.
    app.on_share_corner(true);
    assert!(app.share_opening.is_some());
    assert!(app.serving.is_none());
    assert!(!app.effects.iter().any(|e| matches!(e, Effect::Serve(_))));
}

#[test]
fn the_second_click_on_the_corner_publishes() {
    let mut app = test_app();
    app.on_share_corner(true);
    assert!(app.desk.share_arm);
    assert!(app.effects.is_empty());
    app.on_share_corner(true);
    assert!(app.effects.iter().any(|e| matches!(e, Effect::Serve(o) if o.tunnel)));
}

/// A hint that does not fit whole is dropped, not cut.
#[test]
fn a_narrow_footer_drops_whole_hints_from_the_tail() {
    let hints = vec![hint("↑↓", "Move"), hint("↵", "Actions"), hint("q", "Quit")];
    assert_eq!(fit_hints(&hints, 100).spans.len(), 6);
    // "↑↓ Move " is 8, "↵ Actions " is 10.
    assert_eq!(fit_hints(&hints, 17).spans.len(), 2);
    assert_eq!(fit_hints(&hints, 18).spans.len(), 4);
    assert!(fit_hints(&hints, 3).spans.is_empty());

    let (line, hits) = fit_hints_at(&hints, 100, 4, 23);
    assert_eq!(line.words(), "↑↓ Move ↵ Actions q Quit ");
    assert_eq!(hits, vec![(23, 12, 22, Key::of(KeyCode::Enter)), (23, 22, 29, Key::of(KeyCode::Char('q')))]);
}

/// A click on a hint presses the key it names, and a pair of keys is no key.
#[test]
fn a_hint_is_pressed_by_a_click() {
    assert_eq!(hint("F9", "Image").event(), Some(Key::of(KeyCode::F(9))));
    assert_eq!(hint("F12", "Quit").event(), Some(Key::of(KeyCode::F(12))));
    assert_eq!(hint("?", "Help").event(), Some(Key::of(KeyCode::Char('?'))));
    assert_eq!(hint("Alt+n", "New").event(), Some(Key { code: KeyCode::Char('n'), ctrl: false, alt: true, shift: false }));
    for pair in ["↑↓", "Alt+←→", "Alt+v/s"] {
        assert_eq!(hint(pair, "Both").event(), None);
    }
}

/// The footer is a map of the state you are in.
#[test]
fn the_footer_hints_follow_what_the_dashboard_is_doing() {
    let mut app = test_app();
    let names = |app: &App| -> Vec<&'static str> { app.list_hints().iter().map(|h| h.name).collect() };

    assert!(app.visible.is_empty());
    let empty = names(&app);
    assert!(!empty.contains(&"Actions"), "{empty:?}");
    assert!(!empty.contains(&"Attach"), "{empty:?}");
    assert!(!empty.contains(&"Clear filter"), "{empty:?}");
    assert!(empty.contains(&"Help") && empty.contains(&"Quit"), "{empty:?}");

    app.desk.marked.insert("session-key".to_string());
    let marked = names(&app);
    assert!(!marked.contains(&"Mark"), "{marked:?}");
    assert!(marked.contains(&"Delete marked"), "{marked:?}");
    assert!(marked.contains(&"Unmark"), "{marked:?}");

    app.desk.search = "web".to_string();
    assert!(names(&app).contains(&"Clear filter"));
}

#[test]
fn pane_quota_narrows_to_fit_and_only_for_a_provider() {
    let quota = Quota {
        names: names(),
        claude: vec![ProfileQuota {
            profile: "default".to_string(),
            source: AccountSource::Directory,
            status: known(),
        }],
        codex: vec![],
    };
    let label = format!("{}-6", command());
    assert_eq!(
        pane_quota(&label, None, &quota, 4_500, 40).as_deref(),
        Some(" 5h 37% 1h31m · 7d 21% 137h38m ")
    );
    assert_eq!(pane_quota(&label, None, &quota, 4_500, 20).as_deref(), Some(" 5h 37% · 7d 21% "));
    assert_eq!(pane_quota(&label, None, &quota, 4_500, 10).as_deref(), Some(" 37%/21% "));
    // Too narrow for even the percentages, and a shell has no provider.
    assert!(pane_quota(&label, None, &quota, 4_500, 5).is_none());
    assert!(pane_quota("zsh", None, &quota, 4_500, 40).is_none());
}

#[test]
fn a_crowded_tab_bar_elides_instead_of_overflowing() {
    let titles: Vec<String> = (1..=6).map(|i| format!("{i}:{}-{i}", command())).collect();
    let label_room = 40usize;
    let cap = (label_room / titles.len()).saturating_sub(2).max(3);
    let drawn: usize = titles.iter().map(|t| elide(t, cap).chars().count() + 2).sum();

    assert!(drawn <= label_room, "{drawn} columns in {label_room}");
    assert_eq!(elide(&format!("1:{}-1", command()), cap), "1:c…");
    assert_eq!(elide("1:cc", cap), "1:cc");
}

#[test]
fn quota_suffix_drops_detail_step_by_step() {
    let status = known();
    assert_eq!(quota_suffix(&status, 4_500, QuotaDetail::Full), "5h 37% 1h31m · 7d 21% 137h38m");
    assert_eq!(quota_suffix(&status, 4_500, QuotaDetail::NoResets), "5h 37% · 7d 21%");
    assert_eq!(quota_suffix(&status, 4_500, QuotaDetail::PctOnly), "37%/21%");
    assert!(quota_suffix(&ProviderStatus::Pending, 4_500, QuotaDetail::Full).is_empty());
}

#[test]
fn hit_testing_maps_regions() {
    let layout = Layout {
        workspace_spans: vec![(0, 12, 0)],
        workspace_new: Some((12, 23)),
        share_corner: Some((24, 50, 78)),
        header_row: 6,
        rows_start: 7,
        rows_end: 12,
        tab_row: 20,
        bottom_start: 20,
        column_spans: vec![(0, 5, ColumnId::Status), (5, 12, ColumnId::Cost)],
        tab_spans: vec![(2, 6, 0), (8, 19, 1)],
        tool_sidebar: Some((18, 21, 0, 3)),
        tool_log: Some((19, 21, 4)),
        modal_rect: Some(Rect::new(10, 8, 20, 6)),
        launch_rows: vec![(10, 0), (11, 1)],
        launch_cwd_rows: vec![(12, 0)],
        menu_rows: vec![(9, 0), (10, 1)],
        key_hits: vec![(24, 0, 10, Key::of(KeyCode::Enter))],
        pane_rects: vec![Rect::new(1, 7, 40, 10)],
    };
    // A key written on screen answers its own columns and nothing else.
    assert_eq!(layout.key_at(3, 24).map(|k| k.code), Some(KeyCode::Enter));
    assert!(layout.key_at(10, 24).is_none());
    assert!(layout.key_at(3, 23).is_none());
    // The share link answers only its own columns on its own row.
    assert!(layout.share_corner_at(50, 24));
    assert!(layout.share_corner_at(77, 24));
    assert!(!layout.share_corner_at(78, 24));
    assert!(!layout.share_corner_at(50, 23));
    assert_eq!(layout.launch_row_at(15, 11), Some(1));
    assert_eq!(layout.launch_row_at(15, 12), None);
    // Same row, but outside the modal: still not a choice.
    assert_eq!(layout.launch_row_at(5, 11), None);

    assert_eq!(layout.launch_cwd_row_at(15, 12), Some(0));
    assert_eq!(layout.launch_cwd_row_at(15, 11), None);
    assert_eq!(layout.launch_cwd_row_at(5, 12), None);

    assert_eq!(layout.menu_row_at(15, 9), Some(0));
    assert_eq!(layout.menu_row_at(15, 10), Some(1));
    assert_eq!(layout.menu_row_at(15, 13), None);
    assert_eq!(layout.menu_row_at(5, 9), None);
    assert!(layout.in_modal(10, 8));
    assert!(!layout.in_modal(30, 8));
    // The bar's tabs and its new-tab button only exist on the top row.
    assert_eq!(layout.workspace_at(3, 0), Some(0));
    assert_eq!(layout.workspace_at(15, 0), None);
    assert!(layout.workspace_new_at(15, 0));
    assert!(!layout.workspace_new_at(3, 0));
    assert!(!layout.workspace_new_at(15, 1));
    assert_eq!(layout.row_at(7), Some(0));
    assert_eq!(layout.row_at(11), Some(4));
    assert_eq!(layout.row_at(12), None);
    assert_eq!(layout.header_column_at(6, 6), Some(ColumnId::Cost));
    assert_eq!(layout.header_column_at(6, 7), None);
    assert_eq!(layout.tab_at(9, 20), Some(1));
    assert_eq!(layout.tab_at(9, 21), None);
    assert!(layout.in_bottom_panel(20));
    assert!(!layout.in_bottom_panel(19));
    // A pane resolves to the cell of the agent's own screen.
    assert_eq!(layout.pane_at(1, 7), Some((0, 0, 0)));
    assert_eq!(layout.pane_at(10, 9), Some((0, 9, 2)));
    assert_eq!(layout.pane_at(41, 9), None);
    assert_eq!(layout.pane_at(10, 17), None);
    // Sidebar clicks map to a tool filter; clicks past its right edge don't.
    assert_eq!(layout.tool_sidebar_at(4, 22), Some(1));
    assert_eq!(layout.tool_sidebar_at(4, 24), None);
    assert_eq!(layout.tool_sidebar_at(40, 22), None);
    // Log clicks resolve to a line offset; the sidebar column is excluded.
    assert_eq!(layout.tool_log_row_at(30, 21), Some(0));
    assert_eq!(layout.tool_log_row_at(30, 24), Some(3));
    assert_eq!(layout.tool_log_row_at(30, 25), None);
    assert_eq!(layout.tool_log_row_at(5, 22), None);
}

#[test]
fn quota_colour_tracks_spending_pace() {
    let duration = 7 * 24 * 60 * 60u64;
    let reset = 1_000_000;
    // 80% used halfway through a seven-day window is well ahead of an even pace.
    let ahead = Window {
        label: "7d".to_string(),
        pct: 80,
        duration: Some(duration),
        resets_at: Some(reset + duration as i64 / 2),
    };
    assert_eq!(quota_color(&ahead, reset), Ink::High);

    let sustainable = Window { pct: 50, ..ahead };
    assert_eq!(quota_color(&sustainable, reset), Ink::Low);
}

/// With no tabs open the bar still names the dashboard and offers the button.
#[test]
fn the_bar_offers_a_new_tab_with_nothing_open() {
    let app = test_app();
    let bar = app.workspace_bar(Rect::new(0, 0, 80, 1), &vec![], true);
    let top = bar.line.words();
    assert!(top.starts_with(" 1:Dashboard  + Tab (t) "), "the new-tab button is not on the bar: {top:?}");
    let (a, b) = bar.button.expect("no new-tab hit region");
    let mut layout = Layout::new();
    layout.workspace_new = Some((a, b));
    assert!(layout.workspace_new_at(a, 0));
    assert!(!layout.workspace_new_at(a, 1));
}

/// The labels stand side by side, and a tab that wants something says so.
#[test]
fn the_bar_names_its_tabs() {
    let mut app = test_app();
    for name in ["one", "two"] {
        app.tabs.push(Tab::new(Pane::new(name.to_string(), 1)));
    }
    app.tab = 2;
    let bar = app.workspace_bar(
        Rect::new(0, 0, 120, 1),
        &vec![Some(Attention::NeedsInput), Some(Attention::Idle)],
        true,
    );
    let top = bar.line.words();
    assert!(top.contains("1:Dashboard") && top.contains("2:one") && top.contains("3:two"), "{top}");
    assert_eq!(bar.spans.len(), 3);
    for pair in bar.spans.windows(2) {
        assert!(pair[0].1 <= pair[1].0, "{:?}", bar.spans);
    }
}

/// A named account is still its own harness's account.
#[test]
fn an_expired_account_is_told_to_log_into_its_own_harness() {
    let expired = |profile: &str, source| ProfileQuota {
        profile: profile.to_string(),
        status: ProviderStatus::Expired,
        source,
    };
    let quota = Quota {
        names: names(),
        claude: vec![expired("default", AccountSource::Directory), expired("side", AccountSource::Token)],
        codex: vec![expired("default", AccountSource::Directory), expired("work", AccountSource::Directory)],
    };
    let columns = words(&limits(&quota, 0));
    let mine = columns.iter().find(|l| l.contains("Codex (work)")).expect("the named account was not drawn");
    let other = format!("{} login", command());
    assert!(
        mine.contains("codex login") && !mine.contains(&other),
        "a Codex account was pointed at another harness's login: {mine:?}"
    );
    let side = format!("{} (side)", title());
    let mine = columns.iter().find(|l| l.contains(&side)).expect("the token account was not drawn");
    assert!(
        mine.contains("cctop --add-account") && !mine.contains(&other),
        "a token account was told to log in: {mine:?}"
    );
    assert!(columns[0].contains(&other), "{:?}", columns[0]);
}

/// The Overview spends its width on a breakdown, and gives it back when narrow.
#[test]
fn the_overview_spends_its_width_on_a_breakdown_and_gives_it_back_when_narrow() {
    let dollars = |n: u64| n * 1_000_000_000;
    let stats = Stats {
        spend_per_min: 0,
        spend_today: dollars(60),
        spend_calendar_month: dollars(300),
        spend_total: dollars(900),
        top_today: vec![
            ("orchard".to_string(), dollars(30)),
            ("beehive".to_string(), dollars(20)),
            ("cellar".to_string(), dollars(6)),
            ("attic".to_string(), dollars(3)),
            ("shed".to_string(), dollars(1)),
        ],
        models_today: vec![("opus-5".to_string(), dollars(45)), ("haiku-4-5".to_string(), dollars(15))],
        total: 0,
        running: 0,
        active_24h: 0,
        total_cpu: 0,
        total_memory: 0,
        total_input: 0,
        total_output: 0,
    };
    let overview = |cols: u16| -> String {
        let parts = columns(cols - 2);
        let mut text = words(&spending(&stats, 15, Line::new(), Line::new(), Line::new()));
        if parts.mid > 0 {
            text.append(&mut words(&breakdown(&stats.top_today, parts.mid as u16)));
        }
        text.append(&mut words(&machine(&stats, Line::new())));
        text.join("\n")
    };
    let wide = overview(190);
    assert!(
        wide.contains("Top today") && wide.contains("orchard") && wide.contains("shed"),
        "the breakdown is missing from a wide Overview: {wide}"
    );
    assert!(
        wide.contains("opus-5") && wide.contains("75%"),
        "today's model mix is not shown as a share of today: {wide}"
    );
    assert!(wide.contains("/day this month"), "the daily average is missing: {wide}");

    let narrow = overview(72);
    assert!(
        narrow.contains("Live rate") && narrow.contains("All time"),
        "a narrow Overview lost the spend rows it exists for: {narrow}"
    );
    assert!(!narrow.contains("Top today"), "the breakdown was squeezed into a narrow Overview: {narrow}");
}

/// One line per entry, whether or not it can run.
#[test]
fn the_row_menu_gives_every_entry_exactly_one_line() {
    let item = |label: &str, blocked: Option<&str>, rule| Item {
        label: label.to_string(),
        key: "k".to_string(),
        blocked: blocked.map(str::to_string),
        rule,
    };
    let items = vec![
        item("Read", None, false),
        item("Send keys", Some("it is not running, so nothing would read them"), true),
        item("Terminate", Some("it is not running"), false),
    ];
    let menu = row_menu(&items, 0).expect("a menu");
    let rows = menu_rows(&menu.lines, Rect::new(4, 2, 60, 30));
    assert_eq!(rows.len(), items.len());
    let mut lines: Vec<u16> = rows.iter().map(|(y, _)| *y).collect();
    lines.sort_unstable();
    lines.dedup();
    assert_eq!(lines.len(), items.len(), "entries share or straddle lines");
    let text = words(&menu.text);
    for (y, i) in &rows {
        let line = &text[(*y - 2) as usize];
        assert!(line.contains(&items[*i].label), "entry {i} is not on its own line: {line:?}");
        if let Some(why) = &items[*i].blocked {
            let head: String = why.chars().take(12).collect();
            assert!(line.contains(&head), "the refusal for {:?} is not beside it: {line:?}", items[*i].label);
        }
    }
}

/// A tab keeps the bar and the footer: the agent gets what is left.
#[test]
fn an_agent_is_given_what_the_dashboard_leaves() {
    assert_eq!(under_bar(Rect::new(0, 0, 60, 21)).y, 1);
    assert_eq!(granted(Rect::new(1, 7, 58, 10), 200, 60), Rect::new(1, 7, 58, 10));
    assert_eq!(granted(Rect::new(1, 7, 58, 10), 20, 5), Rect::new(1, 7, 20, 5));
    assert_eq!(bottom_height(100), 24);
    assert_eq!(bottom_height(50), 18);
    assert_eq!(bottom_height(15), 2);
}

#[test]
fn only_a_mode_over_the_table_is_a_modal() {
    let mut app = test_app();
    assert_eq!(app.modal(), None);
    app.mode = Mode::Help;
    assert_eq!(app.modal(), Some(Mode::Help));
}

/// What is being done to the table is said beside the keys.
#[test]
fn the_badges_say_what_the_table_leaves_out() {
    let mut app = test_app();
    app.desk.search = "web".to_string();
    app.desk.marked.insert("k".to_string());
    let badges = app.footer_badges(None).words();
    assert!(badges.contains("web"), "{badges}");
    let with_bell = app.footer_badges(Some("bell on")).words();
    assert!(with_bell.len() > badges.len(), "{with_bell}");
    app.status = Some(("said".to_string(), 0));
    let (line, hits) = app.footer_line(Rect::new(0, 0, 80, 1), None);
    assert_eq!(line.words(), "said");
    assert!(hits.is_empty());
}
