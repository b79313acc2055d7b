use cctop::app::{App, ColumnId, Mode};
use cctop::bar::Attention;
use cctop::geometry::Rect;
use cctop::keyboard::{Key, KeyCode};
use cctop::modals::accounts::{account_frame, add_account, border_hits, link_cells, link_rows};
use cctop::modals::confirm::{confirm_chips, find, quit_confirm, rmux_install, BatchKind};
use cctop::modals::help::{help_text, LINES};
use cctop::modals::insight::{chat_keys, chat_lines, chat_scroll, chat_title, insight_frame, insight_text, unread_text};
use cctop::modals::launch::{hooks_panel, CwdField, LaunchInto, Launcher, Offer};
use cctop::modals::menu::{tail, trailing, Item};
use cctop::modals::options::{age_filter, cost_filter, sort_by, ColumnHead};
use cctop::modals::tabs::rename_tab;
use cctop::modals::{centered, inside_border, modal, rows_before, scrollable_modal, wrapped_rows};
use cctop::model::{Names, Plan, Process, Provider, Session};
use cctop::preview::{Capture, Snapshot};
use cctop::profiles::{AccountKind, AddAccount};
use cctop::settings::{Binding, Setting};
use cctop::share::FRAMES;
use cctop::styled::{line_of, Ink, Text};
use cctop::tabs::{Running, Tab};
use cctop::transcript::{Conversation, ToolUse, Turn};

fn command() -> String {
    format!("{:?}", Provider::Claude).to_lowercase()
}

fn title() -> String {
    format!("{:?}", Provider::Claude)
}

fn names() -> Names {
    Names { command: command(), title: title(), file: format!("{}.md", command().to_uppercase()) }
}

fn test_app() -> App {
    App::new(Plan::Retail, "1.0.0".to_string(), names())
}

fn session(id: &str, running: bool, label: &str) -> Session {
    let mut s = Session::new(Provider::Claude, command(), id.to_string());
    s.inferred_running = running;
    s.label_source = label.to_string();
    s
}

fn words(t: &Text) -> Vec<String> {
    t.lines.iter().map(|l| l.words()).collect()
}

fn all(t: &Text) -> String {
    words(t).join("\n")
}

/// What a terminal of six rows and twenty columns shows once `text` is printed.
fn rows_of(rows: u16, cols: u16, text: &str) -> Vec<Vec<char>> {
    let mut capture = Capture::new("x".to_string());
    capture.apply(Snapshot { cols, rows, cursor: None, bytes: text.as_bytes().to_vec() });
    let screen = capture.screen.as_ref().unwrap();
    (0..rows)
        .map(|r| (0..cols).map(|c| screen.cell(r, c).and_then(|s| s.text.chars().next()).unwrap_or(' ')).collect())
        .collect()
}

fn link() -> String {
    format!("https://{}.com/cai/oauth/authorize?code=true", command())
}

/// A link wrapped over three rows is three click targets, and the text after it is
/// none.
#[test]
fn every_row_of_a_wrapped_link_is_clickable() {
    let link = link();
    let rows = rows_of(6, 20, &format!("Sign in:\r\n{link}\r\n\r\nPaste code:"));
    assert_eq!(link_cells(&rows, &link), vec![(1, 0, 20), (2, 0, 20), (3, 0, 8)]);
}

/// The prompt in front of the URL is not part of the link, and neither is a row
/// that only starts like a piece of it.
#[test]
fn the_link_is_its_own_columns_and_not_the_row() {
    let link = "https://a.io/abc";
    let rows = rows_of(6, 20, &format!("Go: {link}\r\nabc later"));
    assert_eq!(link_cells(&rows, link), vec![(0, 4, 20)]);
}

/// Read in order, the cells of a wrapped link spell it, and each of its rows copies
/// it when clicked.
#[test]
fn a_wrapped_sign_in_link_opens_the_whole_url_from_every_row() {
    let link = format!("{}&client_id={}&state={}", link(), "c".repeat(60), "s".repeat(70));
    let rows = rows_of(
        24,
        76,
        &format!("Browser didn't open? Use the url below:\r\n\r\n{link}\r\n\r\nPaste code > "),
    );
    let places = link_cells(&rows, &link);
    let spelled: String = places.iter().flat_map(|(r, a, b)| rows[*r][*a..*b].iter()).collect();
    assert_eq!(spelled, link);
    assert!(places.len() >= 3, "the URL was meant to wrap: {places:?}");
    let copy = Key { code: KeyCode::Char('o'), ctrl: true, alt: false, shift: false };
    let hits = link_rows(&places, Rect::new(2, 5, 76, 24));
    for (r, _, _) in &places {
        let y = *r as u16 + 5;
        assert!(hits.iter().any(|(row, _, _, key)| *row == y && *key == copy), "row {y} is not a click target");
    }
}

#[test]
fn a_help_key_longer_than_its_column_keeps_a_gap() {
    let mut app = test_app();
    let (text, at) = app.help(Rect::new(0, 0, 120, 40));
    let page = all(&text);
    assert!(page.contains("Home / End Jump"), "{page}");
    assert_eq!(text.lines.len(), LINES);
    assert_eq!(app.desk.help_max_scroll, at.most);
    assert!(page.contains(&format!("Add a {} account (runs {} setup-token)", title(), command())));
    assert!(page.contains(&format!("In a {} pane: top / bottom of the chat", title())));
    assert_eq!(help_text(&names()).lines.len(), LINES);
}

/// The picker row brackets the pick and spells its name.
#[test]
fn the_colour_row_brackets_the_pick_and_names_it() {
    let hues: Vec<String> = ["red", "green", "cyan"].iter().map(|h| h.to_string()).collect();
    let t = rename_tab(&format!("{}-4", command()), "", &hues, Some(2));
    let text = all(&t);
    assert!(text.contains("cyan"), "the pick's name is not spelled: {text}");
    assert!(text.contains("[●]"), "the pick is not bracketed: {text}");
    assert!(text.contains('○'), "the none stop is missing: {text}");
    assert!(
        t.lines.iter().any(|l| l.spans.iter().any(|s| s.text == "●" && s.ink == Ink::Hue(2))),
        "no swatch wears the picked hue"
    );
}

/// While the transcripts are still being read the overlay keeps moving.
#[test]
fn a_report_still_loading_turns_a_spinner() {
    let text = all(&insight_text(None, 0));
    assert!(text.contains("Reading every transcript"), "the wait is not described: {text}");
    assert!(text.chars().any(|c| FRAMES.contains(&c)), "no spinner frame on screen: {text}");
    assert_eq!(words(&insight_text(Some("a\nb"), 0)), ["a", "b"]);
    assert_ne!(insight_frame(true, true).0, insight_frame(false, true).0);
}

/// The switcher lists the whole bar, dashboard first, and says what each tab wants.
#[test]
fn the_switcher_lists_the_bar_with_its_states() {
    let shared = |name: &str| {
        Tab::shared(&Running {
            name: format!("cctop-{name}"),
            pid: None,
            activity: None,
            label: Some(name.to_string()),
            profile: None,
            order: None,
            created: 0,
        })
    };
    let mut app = test_app();
    app.tabs = vec![shared(&command()), shared("blocked")];
    app.mode = Mode::SwitchTab;
    let wants = vec![None, None, Some(Attention::NeedsInput)];
    let text = all(&app.switch_tab("", &vec![0, 1, 2], &wants, &vec![None, None, None], 0));
    assert!(text.contains("Dashboard"), "the dashboard is missing: {text}");
    assert!(text.contains(&command()), "a tab is missing: {text}");
    assert!(text.contains("needs you"), "the ask is not marked: {text}");
    assert!(text.contains("›"), "no cursor on the pick: {text}");

    // A filter that matches nothing says so rather than listing air.
    let text = all(&app.switch_tab("zzz", &vec![], &wants, &vec![], 0));
    assert!(text.contains("No tab by that name"), "silence: {text}");
}

#[test]
fn centered_rect_never_exceeds_screen() {
    let area = Rect { x: 0, y: 0, width: 20, height: 10 };
    let r = centered(area, 100, 100);
    assert!(r.width <= area.width && r.height <= area.height);
    assert!(r.x + r.width <= area.width);
    assert_eq!(centered(area, 10, 4), Rect::new(5, 3, 10, 4));
}

/// A modal is as tall as its lines once they are wrapped.
#[test]
fn a_modal_is_as_tall_as_its_lines() {
    let mut t = Text::new();
    t.push(line_of("short", Ink::Plain));
    t.push(line_of(&"x".repeat(30), Ink::Plain));
    assert_eq!(wrapped_rows(&t, 20), 3);
    assert_eq!(rows_before(&t, 20, 1), 1);
    let placed = modal(Rect::new(0, 0, 80, 24), &t, 22);
    assert_eq!(placed.outer.width, 22);
    assert_eq!(placed.inner, inside_border(placed.outer));
    assert_eq!(placed.inner.height, 3);
}

/// The last line can be reached, and nothing past it.
#[test]
fn a_long_page_can_be_scrolled_to_its_end() {
    let at = scrollable_modal(Rect::new(0, 0, 80, 24), 100, 60, 9999);
    assert_eq!(at.scroll, at.most);
    assert_eq!(at.most + at.inner.height, 100);
    assert!(at.note.is_some());
    let fits = scrollable_modal(Rect::new(0, 0, 80, 24), 5, 60, 3);
    assert_eq!((fits.most, fits.scroll), (0, 0));
}

/// Each step of adding an account has its own dialog.
#[test]
fn an_account_is_added_step_by_step() {
    let mut flow = AddAccount::new();
    let (d, width) = add_account(&flow, &names()).expect("a dialog");
    assert_eq!(d.title, format!("Add a {} account", title()));
    assert_eq!(width, 52);
    flow.name = "work".to_string();
    flow.named = true;
    let (d, width) = add_account(&flow, &names()).expect("a dialog");
    assert_eq!((d.title, width), (format!("Add {} account work", title()), 64));
    assert!(all(&d.text).contains(&format!("its own ~/.{}-work, everything works", command())));
    flow.kind = Some(AccountKind::Login);
    flow.open = true;
    assert!(add_account(&flow, &names()).is_none());
    let frame = account_frame(&flow, &names());
    assert_eq!(frame.title, format!(" Add {} account work — {} auth login ", title(), command()));
    assert_eq!(frame.hint, " [Esc] cancel ");
    let hits = border_hits(&flow, Rect::new(0, 0, 60, 20));
    assert_eq!(hits.len(), 1);
    assert_eq!((hits[0].0, hits[0].3), (19, Key::of(KeyCode::Esc)));
    flow.open = false;
    flow.outcome = Some(Ok("work".to_string()));
    let (d, width) = add_account(&flow, &names()).expect("a dialog");
    assert_eq!(width, 72);
    assert!(all(&d.text).contains(&format!("cctop as work {}", command())));
    flow.outcome = Some(Err("no".to_string()));
    assert_eq!(words(&add_account(&flow, &names()).unwrap().0.text)[0], " no");
}

/// A key written in a dialog is clicked where it is written.
#[test]
fn a_chip_is_clicked_where_it_is_written() {
    assert_eq!(find("a [y] b", "[y]"), Some(2));
    assert_eq!(find("a", "[y]"), None);
    let hits =
        confirm_chips(Rect::new(10, 5, 40, 8), 3, "  [y] quit", &vec![("[y]", Key::of(KeyCode::Char('y')))]);
    assert_eq!(hits, vec![(8, 12, 15, Key::of(KeyCode::Char('y')))]);
    let quit = quit_confirm("tests");
    assert_eq!(quit.title, "Quit and stop the agent?");
    assert!(all(&quit.text).contains("tests"));
    assert!(rmux_install("brew install rmux", "brew").0.contains("brew"));
}

/// What is about to be done is confirmed, and what cannot be is said not to be.
#[test]
fn a_deed_is_confirmed_or_refused() {
    let mut app = test_app();
    assert!(app.delete_confirm().is_none(), "nothing is selected");
    app.sessions = vec![session("a", false, "/x"), session("b", true, "/y")];
    app.sessions[1].process = Some(Process {
        pid: 9,
        command: command(),
        cpu: 0,
        memory: 0,
        pids: 1,
        list: vec![],
    });
    app.refilter();
    let d = app.delete_confirm().expect("a dialog");
    assert_eq!(d.chips.len(), 2);
    assert!(app.delete_blocked().is_some());
    assert!(app.kill_confirm().is_some());
    assert!(app.kill_blocked().is_some());
    assert!(app.resume_confirm().is_some());
    let keys: Vec<String> = app.sessions.iter().map(|s| s.key()).collect();
    app.desk.marked.insert(keys[0].clone());
    app.desk.marked.insert(keys[1].clone());
    assert_eq!(app.marked_sessions(), vec![0, 1]);
    let batch = all(&app.batch_confirm(BatchKind::Delete).text);
    assert!(batch.contains("/x") && batch.contains("/y"), "{batch}");
    assert_ne!(
        all(&app.batch_blocked(BatchKind::Delete, false).text),
        all(&app.batch_blocked(BatchKind::Kill, false).text)
    );
}

/// The end of a long text is what is kept of it.
#[test]
fn a_tail_is_the_end() {
    assert_eq!(tail("abcdef", 10), "abcdef");
    let cut = tail("abcdef", 4);
    assert_eq!(cut.chars().count(), 4);
    assert!(cut.ends_with("def"), "{cut}");
    let item = |blocked: Option<&str>| Item {
        label: "l".to_string(),
        key: "k".to_string(),
        blocked: blocked.map(str::to_string),
        rule: false,
    };
    assert_eq!(trailing(&item(None)), "k");
    assert!(trailing(&item(Some("why not"))).contains("why not"));
    assert!(!item(Some("x")).enabled());
}

/// The choices scroll with the highlight, and a row is clicked where it is.
#[test]
fn the_launcher_shows_the_highlight() {
    let offer = |name: &str| Offer {
        waiting: false,
        attached: false,
        name: name.to_string(),
        at: String::new(),
        signal: None,
    };
    let mut launcher = Launcher {
        offers: (0..30).map(|i| offer(&format!("agent-{i}"))).collect(),
        cursor: 25,
        field: None,
        cwd: Some("/home/x/p".to_string()),
        profile: None,
        brief: false,
        into: LaunchInto::Tab,
    };
    let (text, shown) = launcher.panel("/home/x", 24);
    assert!(all(&text).contains("agent-25"), "{}", all(&text));
    assert!(shown.scrolled);
    let rows = launcher.choice_rows(shown, Rect::new(1, 1, 60, 20));
    assert!(rows.iter().any(|(_, i)| *i == 25), "{rows:?}");
    launcher.into = LaunchInto::Split { stacked: true };
    let split = launcher.title();
    launcher.into = LaunchInto::Tab;
    assert_ne!(split, launcher.title());
    launcher.field = Some(CwdField {
        input: "/home".to_string(),
        bad: false,
        hits: vec!["/home/x".to_string()],
        pick: Some(0),
    });
    let (text, shown) = launcher.panel("/home/x", 24);
    assert!(all(&text).contains("/home"), "{}", all(&text));
    assert_eq!(launcher.dir_rows(shown, Rect::new(1, 1, 60, 20)).len(), 1);
    let hooks = hooks_panel(&vec![("installed".to_string(), true)], &vec![], Some("/repo"));
    assert!(all(&hooks).contains("installed"));
}

#[test]
fn a_list_is_sorted_or_filtered_from_a_panel() {
    let heads = vec![
        ColumnHead { id: ColumnId::Status, label: "S".to_string(), desc: "state".to_string() },
        ColumnHead { id: ColumnId::Cost, label: "COST".to_string(), desc: "spent".to_string() },
    ];
    let t = sort_by(&heads, ColumnId::Cost, true, 0);
    assert!(all(&t).contains("COST ▲") && all(&t).contains("state"), "{}", all(&t));
    assert!(all(&age_filter(&vec![None, Some("1d".to_string())], 1, 0)).contains("No filter"));
    assert!(all(&cost_filter("2.5")).contains("2.5"));
    let mut app = test_app();
    assert!(app.send_keys("x").is_none());
    app.sessions = vec![session("a", true, "/x")];
    app.refilter();
    assert!(all(&app.send_keys("hello").expect("a panel")).contains("hello"));
    app.desk.search = "web".to_string();
    assert!(all(&app.search_panel(Some("…web…"), true)).contains("web"));
}

/// The row in hand stays in sight however long the list of settings is.
#[test]
fn the_settings_keep_the_cursor_in_sight() {
    let mut app = test_app();
    for i in 0..40 {
        app.config.settings.entries.push(Setting {
            name: format!("name-{i}"),
            value: "true".to_string(),
            set: false,
            what: "what it does".to_string(),
        });
    }
    app.config.settings.bindings.push(Binding {
        action: "quit".to_string(),
        default: "q".to_string(),
        what: "leave".to_string(),
        key: "q".to_string(),
    });
    app.config.cursor = 35;
    let (text, at) = app.settings_panel(Rect::new(0, 0, 100, 24), "/home/x");
    let lines = words(&text);
    let row = lines.iter().position(|l| l.contains("name-35")).expect("the row");
    assert!(row >= at.scroll as usize && row < (at.scroll + at.inner.height) as usize, "{row} {}", at.scroll);
}

#[test]
fn a_conversation_says_what_it_is() {
    let s = session("a", true, "/repo");
    assert!(chat_title(&s).contains("/repo"));
    assert!(chat_keys(false, Some(3), 0).contains('3'));
    assert_eq!(chat_scroll(10, 20, 5), (0, 0));
    let text = all(&unread_text(Some("no transcript"), false, 0));
    assert!(text.contains("no transcript"), "{text}");
}

/// A conversation is laid out turn by turn, its tools under what was said.
#[test]
fn a_conversation_is_laid_out() {
    let turn = |role: &str, kind: &str, text: &str| Turn {
        seq: 0,
        role: role.to_string(),
        kind: kind.to_string(),
        ts: String::new(),
        clock: String::new(),
        text: text.to_string(),
        clipped: false,
        tools: Vec::new(),
    };
    let mut reply = turn("assistant", "message", "one two three four five");
    reply.tools.push(ToolUse {
        name: "Edit".to_string(),
        detail: "a.rs".to_string(),
        full: None,
        result: Some("done".to_string()),
        diff: vec!["+x".to_string()],
        added: 1,
        removed: 0,
        failed: false,
    });
    let conv = Conversation {
        turns: vec![turn("user", "message", "go"), turn("", "compaction", ""), reply],
        earlier: 0,
        note: Some("read in part".to_string()),
    };
    let mut s = session("a", true, "/repo");
    s.type_label = title();
    let lines = words(&chat_lines(&s, &conv, 12, 0));
    assert_eq!(lines[0], "read in part");
    assert!(lines.iter().any(|l| l.contains("compacted")));
    assert!(lines.iter().any(|l| l == "  one two"), "{lines:?}");
    assert!(lines.iter().any(|l| l.contains("⚙ Edit  a.rs  +1 −0")), "{lines:?}");
    assert!(lines.iter().any(|l| l == "      +x"), "{lines:?}");
}

/// The border of a menu says which row it is about.
#[test]
fn a_menu_names_its_row() {
    let mut app = test_app();
    assert_eq!(app.menu_title(30), "  ");
    app.sessions = vec![session("a", true, "/a/rather/long/path")];
    app.refilter();
    assert_eq!(app.menu_title(30), " /a/rather/long/path ");
    assert_eq!(app.menu_title(12), " /a/rath… ");
}
