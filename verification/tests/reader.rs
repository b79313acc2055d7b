use cctop::app::{App, Effect, Mode};
use cctop::keyboard::{Key, KeyCode};
use cctop::model::{Names, Plan, Provider, Session};
use cctop::reader::{ChatView, Search};
use cctop::styled::{line_of, Ink, Line, Text};
use cctop::transcript::{highlight, lower, matches_in, Conversation, Drawn, DrawnTool, Link, Rendered, ToolUse, Turn};

fn command() -> String {
    format!("{:?}", Provider::Claude).to_lowercase()
}

fn title() -> String {
    format!("{:?}", Provider::Claude)
}

fn names() -> Names {
    Names { command: command(), title: title(), file: format!("{}.md", command().to_uppercase()) }
}

fn test_app() -> App {
    App::new(Plan::Retail, "1.0.0".to_string(), names())
}

fn session(id: &str, running: bool, label: &str) -> Session {
    let mut s = Session::new(Provider::Claude, command(), id.to_string());
    s.inferred_running = running;
    s.label_source = label.to_string();
    s
}

fn turn(seq: usize, role: &str, text: &str) -> Turn {
    Turn {
        seq,
        role: role.to_string(),
        kind: "message".to_string(),
        ts: String::new(),
        clock: String::new(),
        text: text.to_string(),
        clipped: false,
        tools: Vec::new(),
    }
}

fn tool(name: &str, detail: &str, result: &str) -> ToolUse {
    ToolUse {
        name: name.to_string(),
        detail: detail.to_string(),
        full: None,
        result: Some(result.to_string()),
        diff: Vec::new(),
        added: 0,
        removed: 0,
        failed: false,
    }
}

fn text(lines: &[&str], ink: Ink) -> Text {
    let mut t = Text::new();
    for l in lines {
        t.push(line_of(l, ink));
    }
    t
}

/// A reply with its stars taken out, and a result indented as it is drawn.
fn drawn(turns: &[Turn]) -> Vec<Drawn> {
    turns
        .iter()
        .map(|t| {
            let said = t.text.replace("**", "");
            let lines: Vec<&str> = said.lines().collect();
            Drawn {
                reply: Rendered { lines: text(&lines, Ink::Plain), links: Vec::new() },
                tools: t
                    .tools
                    .iter()
                    .map(|u| {
                        let result = u.result.clone().unwrap_or_default();
                        let rows: Vec<String> = result.lines().map(|l| format!("      {l}")).collect();
                        let rows: Vec<&str> = rows.iter().map(String::as_str).collect();
                        DrawnTool { full: Text::new(), result: text(&rows, Ink::Low) }
                    })
                    .collect(),
            }
        })
        .collect()
}

fn open_with(turns: Vec<Turn>) -> App {
    let mut app = test_app();
    app.sessions = vec![session("a", true, "/repo")];
    app.refilter();
    app.mode = Mode::Conversation;
    app.chat = Some(ChatView {
        session: app.sessions[0].copy(),
        host: None,
        conversation: Some(Conversation { turns, earlier: 0, note: None }),
        error: None,
        fetching: false,
        visible: 0,
        back: 0,
        tools_open: false,
        opened: Vec::new(),
        raw: false,
        laid: None,
        dirty: true,
        hold: false,
        search: Search::none(),
    });
    app
}

/// What is on screen, a row to a line.
fn screen(app: &mut App, width: usize, height: usize) -> String {
    let view = app.chat.as_mut().expect("open");
    view.visible = height - 2;
    if view.wants(width) {
        let all = drawn(&view.conversation.as_ref().unwrap().turns);
        view.lay_out(width, &all);
    }
    view.shown_rows(0).iter().map(|r| r.line.words() + "\n").collect()
}

fn press(app: &mut App, code: KeyCode) {
    app.on_key_conversation(Key::of(code));
}

fn typed(app: &mut App, text: &str) {
    for c in text.chars() {
        press(app, KeyCode::Char(c));
    }
}

fn view(app: &App) -> &ChatView {
    app.chat.as_ref().expect("open")
}

fn first_row(screen: &str) -> String {
    screen.lines().next().unwrap_or("").to_string()
}

fn long() -> String {
    (0..40).map(|i| format!("line {i}\n\n")).collect()
}

/// A reply reads as it was rendered, with its link; a prompt keeps its characters;
/// a result, once its tool is opened, shows its colour.
#[test]
fn the_conversation_renders_replies_and_colours_results() {
    let mut reply = turn(1, "assistant", "Done\n\nRan **all** of it, see the log.");
    reply.tools.push(tool("Bash", "cargo test", "test result: ok. 3 passed"));
    let mut app = open_with(vec![turn(0, "user", "**keep** my stars"), reply]);
    let text = screen(&mut app, 100, 30);
    assert!(text.contains("Ran all of it, see the log."), "{text}");
    assert!(!text.contains("**all**"), "{text}");
    assert!(text.contains("**keep** my stars"), "the prompt was rendered: {text}");
    // Closed, the call is one line saying how much more there is.
    assert!(text.contains("▸ ⚙ Bash  cargo test  · 1 line"), "{text}");
    assert!(!text.contains("test result"), "{text}");

    press(&mut app, KeyCode::Char('t'));
    let text = screen(&mut app, 100, 30);
    assert!(text.contains("test result: ok. 3 passed"), "{text}");
    let rows = view(&app).shown_rows(0);
    assert!(
        rows.iter().any(|r| r.line.spans.iter().any(|s| s.ink == Ink::Low && s.text.contains("test result"))),
        "the result lost its colour"
    );

    // `m` shows the source instead, markers and all.
    press(&mut app, KeyCode::Char('m'));
    assert!(screen(&mut app, 100, 30).contains("Ran **all** of it"));
}

/// A link in a reply stays on the row it is on.
#[test]
fn a_link_is_drawn_where_its_words_are() {
    let mut app = open_with(vec![turn(0, "assistant", "see the log")]);
    let view = app.chat.as_mut().unwrap();
    view.visible = 20;
    let mut all = drawn(&view.conversation.as_ref().unwrap().turns);
    all[0].reply.links.push(Link { line: 0, from: 8, to: 11, url: "https://example.com/log".to_string() });
    view.lay_out(80, &all);
    let rows = view.shown_rows(0);
    let linked: Vec<_> = rows.iter().filter(|r| !r.links.is_empty()).collect();
    assert_eq!(linked.len(), 1);
    let link = &linked[0].links[0];
    assert_eq!(link.url, "https://example.com/log");
    let words: String = linked[0].line.words().chars().skip(link.from as usize).take((link.to - link.from) as usize).collect();
    assert_eq!(words, "log");
}

/// Enter opens the tools of the turn being read and no other, and the row that was
/// at the top stays there while it does.
#[test]
fn enter_opens_one_turns_tools_in_place() {
    let mut first = turn(0, "assistant", "first");
    first.tools.push(tool("Read", "a.rs", "one\ntwo\nthree"));
    let mut second = turn(1, "assistant", "second");
    second.tools.push(tool("Read", "b.rs", "one\ntwo\nthree"));
    let filler: String = (0..30).map(|i| format!("line {i}\n\n")).collect();
    let mut app = open_with(vec![first, second, turn(2, "assistant", &filler)]);
    app.chat.as_mut().unwrap().session.type_label = title();
    screen(&mut app, 80, 20);
    press(&mut app, KeyCode::Char('g'));
    let before = first_row(&screen(&mut app, 80, 20));
    assert!(before.contains(&title()), "{before}");

    press(&mut app, KeyCode::Enter);
    let text = screen(&mut app, 80, 20);
    assert_eq!(first_row(&text), before, "the view moved");
    assert!(text.contains("▾ ⚙ Read  a.rs"), "{text}");
    assert!(text.contains("▸ ⚙ Read  b.rs"), "{text}");
    assert!(text.contains("      three"), "{text}");

    press(&mut app, KeyCode::Enter);
    assert!(screen(&mut app, 80, 20).contains("▸ ⚙ Read  a.rs"));
}

/// `[` brings the previous turn's header to the top, `]` walks forward again, and
/// past the last header is the end the reader opened on.
#[test]
fn brackets_step_through_the_turns() {
    let mut app = open_with(vec![turn(0, "user", "go"), turn(1, "assistant", &long())]);
    app.chat.as_mut().unwrap().session.type_label = title();
    screen(&mut app, 80, 20);
    assert_eq!(view(&app).back, 0);

    press(&mut app, KeyCode::Char('['));
    let text = screen(&mut app, 80, 20);
    assert!(first_row(&text).contains(&title()), "{text}");
    press(&mut app, KeyCode::Char('['));
    let text = screen(&mut app, 80, 20);
    assert!(first_row(&text).contains("you"), "{text}");
    assert_eq!(view(&app).top(), 0);

    press(&mut app, KeyCode::Char(']'));
    assert!(first_row(&screen(&mut app, 80, 20)).contains(&title()));
    press(&mut app, KeyCode::Char(']'));
    assert_eq!(view(&app).back, 0);
}

/// `g` is the start and `G` the end; `k` from the end is one row back.
#[test]
fn g_and_shift_g_are_the_ends() {
    let mut app = open_with(vec![turn(0, "user", "go"), turn(1, "assistant", long().trim_end())]);
    screen(&mut app, 80, 20);
    press(&mut app, KeyCode::Char('g'));
    assert_eq!(view(&app).top(), 0);
    press(&mut app, KeyCode::Char('G'));
    assert_eq!(view(&app).back, 0);
    // The turn's own gap is the last row, so two rows back is the first that
    // hides the reply's last line.
    press(&mut app, KeyCode::Char('k'));
    press(&mut app, KeyCode::Char('k'));
    assert_eq!(view(&app).back, 2);
    let text = screen(&mut app, 80, 20);
    assert!(!text.contains("line 39"), "{text}");
}

/// `/` finds a word in rendered text case-blind, and `n` and `N` walk the rows it
/// is on, wrapping at the ends.
#[test]
fn search_finds_walks_and_wraps() {
    let mut turns = vec![turn(0, "user", "where is the Needle?")];
    for seq in 1..30 {
        turns.push(turn(seq, "assistant", &format!("filler reply {seq}")));
    }
    turns.push(turn(30, "assistant", "Found the **needle** here."));
    let mut app = open_with(turns);
    screen(&mut app, 80, 20);

    press(&mut app, KeyCode::Char('/'));
    typed(&mut app, "NEEDLE");
    let text = view(&app).footer(0).words();
    assert!(text.contains("/NEEDLE▏  2 rows"), "{text}");
    press(&mut app, KeyCode::Enter);
    assert!(!view(&app).search.typing);
    assert_eq!(view(&app).search.hits.len(), 2);

    let first = view(&app).search.current;
    press(&mut app, KeyCode::Char('n'));
    let second = view(&app).search.current;
    assert_ne!(first, second);
    press(&mut app, KeyCode::Char('n'));
    assert_eq!(view(&app).search.current, first, "n did not wrap");
    press(&mut app, KeyCode::Char('N'));
    assert_eq!(view(&app).search.current, second);

    // The hit landed on is on screen, and marked as the one in hand.
    let text = screen(&mut app, 80, 20);
    assert!(text.contains("the Needle?"), "{text}");
    let rows = view(&app).shown_rows(0);
    let here: Vec<_> = rows.iter().filter(|r| r.current).collect();
    assert_eq!(here.len(), 1);
    let lit: usize = highlight(&here[0].line, &here[0].found, "needle".len())
        .iter()
        .filter(|p| p.lit)
        .map(|p| p.text.chars().count())
        .sum();
    assert_eq!(lit, "needle".len(), "the current hit is not highlighted");

    // Esc drops the search, then closes.
    press(&mut app, KeyCode::Esc);
    assert!(view(&app).search.query.is_empty());
    press(&mut app, KeyCode::Esc);
    assert!(app.chat.is_none());
}

/// Esc while typing puts the view back where `/` was pressed.
#[test]
fn cancelling_a_search_returns_to_where_it_started() {
    let mut app = open_with(vec![turn(0, "user", "unique word"), turn(1, "assistant", &long())]);
    screen(&mut app, 80, 20);
    press(&mut app, KeyCode::Char('/'));
    typed(&mut app, "unique");
    assert_eq!(view(&app).top(), 0, "the search did not move to the hit");
    press(&mut app, KeyCode::Esc);
    assert_eq!(view(&app).back, 0);
    assert!(view(&app).search.query.is_empty());
}

/// Matching is by character, so a highlight splits spans at exactly the query's
/// edges and keeps each piece's own style.
#[test]
fn a_highlight_splits_spans_at_the_match() {
    let mut line = Line::new();
    line.put("ab", Ink::Plain);
    line.put_bold("cdé", Ink::Plain);
    let row = lower("abcdé");
    let found = matches_in(&row, &lower("BCD"));
    assert_eq!(found, vec![1]);
    let lit = highlight(&line, &found, 3);
    let pieces: Vec<(&str, bool)> = lit.iter().map(|p| (p.text.as_str(), p.lit)).collect();
    assert_eq!(pieces, [("a", false), ("b", true), ("cd", true), ("é", false)]);
    assert!(lit[2].bold);
    assert_eq!(matches_in(&lower("aaaa"), &lower("aa")), vec![0, 2]);
}

/// Frames at the same width reuse the layout, and a new width lays it out again
/// with the same turn still at the top.
#[test]
fn the_layout_is_kept_until_the_width_changes() {
    let reply: String = (0..40).map(|i| format!("line {i} of a reply\n\n")).collect();
    let mut app =
        open_with(vec![turn(0, "user", "go"), turn(1, "assistant", &reply), turn(2, "assistant", &reply)]);
    app.chat.as_mut().unwrap().session.type_label = title();
    screen(&mut app, 80, 20);
    press(&mut app, KeyCode::Char('j'));
    assert!(!view(&app).wants(80), "a scroll laid everything out again");

    // Onto the second reply's header, then narrower.
    press(&mut app, KeyCode::Char('['));
    let at = first_row(&screen(&mut app, 80, 20));
    assert!(view(&app).wants(50));
    let narrow = first_row(&screen(&mut app, 50, 20));
    assert!(at.contains(&title()) && narrow.contains(&title()), "{narrow}");
}

/// A few thousand turns are laid out once and scrolled without laying out again.
#[test]
fn a_huge_conversation_draws_only_what_is_shown() {
    let reply = "Some **markdown** with `code`, a link and\n\n- a list\n- of two\n\nfn x() {}";
    let turns = (0..3000).map(|seq| turn(seq, ["user", "assistant"][seq % 2], reply)).collect();
    let mut app = open_with(turns);
    screen(&mut app, 100, 40);
    let total = view(&app).laid_total();
    assert!(total > 3000 * 5, "{total}");
    let started = std::time::Instant::now();
    for _ in 0..50 {
        press(&mut app, KeyCode::PageUp);
        screen(&mut app, 100, 40);
    }
    assert!(started.elapsed() < std::time::Duration::from_secs(3));
}

/// `u` asks for what came before, once.
#[test]
fn earlier_turns_are_asked_for() {
    let mut app = open_with(vec![turn(7, "user", "go")]);
    app.chat.as_mut().unwrap().conversation.as_mut().unwrap().earlier = 7;
    screen(&mut app, 80, 20);
    press(&mut app, KeyCode::Char('u'));
    let asked =
        app.effects.iter().filter(|e| matches!(e, Effect::FetchChat { before: Some(7), .. })).count();
    assert_eq!(asked, 1);
    press(&mut app, KeyCode::Char('u'));
    let asked = app.effects.iter().filter(|e| matches!(e, Effect::FetchChat { .. })).count();
    assert_eq!(asked, 1, "it was asked for twice");
}

/// The wheel moves the view three rows.
#[test]
fn the_wheel_scrolls() {
    let mut app = open_with(vec![turn(1, "assistant", &long())]);
    screen(&mut app, 80, 20);
    app.on_wheel_conversation(true);
    assert_eq!(view(&app).back, 3);
    app.on_wheel_conversation(false);
    assert_eq!(view(&app).back, 0);
}
