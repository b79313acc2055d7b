use cctop::app::{App, Effect, Mode};
use cctop::clipboard::{b64_encode, clipboard_sequence, helper_arguments, HELPERS};
use cctop::geometry::Rect;
use cctop::modals::serve::{origin_of, share_code, ShareCode};
use cctop::model::{Names, Plan, Process, Provider, Session};
use cctop::share::{spinner_frame, Opening, Serving, Share, Tunnel, FRAMES};

fn command() -> String {
    format!("{:?}", Provider::Claude).to_lowercase()
}

fn title() -> String {
    format!("{:?}", Provider::Claude)
}

fn names() -> Names {
    Names { command: command(), title: title(), file: format!("{}.md", command().to_uppercase()) }
}

fn test_app() -> App {
    App::new(Plan::Retail, "1.0.0".to_string(), names())
}

fn session(id: &str, running: bool, label: &str) -> Session {
    let mut s = Session::new(Provider::Claude, command(), id.to_string());
    s.inferred_running = running;
    s.label_source = label.to_string();
    s
}

fn serving(public: Option<&str>) -> Serving {
    Serving {
        local: "http://127.0.0.1:7777/?t=hidden-away".to_string(),
        public: public.map(str::to_string),
        actions: true,
        readonly: "http://127.0.0.1:7777/?t=read".to_string(),
    }
}

/// The panel says where the page is, and keeps the token out of sight; the link
/// behind what it says carries it.
#[test]
fn the_serve_panel_names_the_page_without_naming_its_token() {
    let mut app = test_app();
    app.serving = Some(serving(None));
    app.mode = Mode::Serve;
    let (panel, links) = app.serve_panel(Rect::new(0, 0, 120, 30), false);
    let screen: String = panel.text.lines.iter().map(|l| l.words() + "\n").collect();
    assert!(
        links.iter().any(|(_, url)| url.ends_with("hidden-away")),
        "the drawn origin does not open the page"
    );
    assert!(screen.contains("http://127.0.0.1:"), "the panel never said where the page is:\n{screen}");
    assert!(!screen.contains("hidden-away"), "the token was drawn on screen:\n{screen}");
    assert_eq!(origin_of("http://127.0.0.1:7777/?t=x"), "http://127.0.0.1:7777");
}

/// A page is served once, and a tunnel that fails says why.
#[test]
fn a_tunnel_is_awaited() {
    let mut app = test_app();
    app.start_serving(true);
    assert!(app.effects.iter().any(|e| matches!(e, Effect::Serve(o) if o.tunnel)));
    assert!(app.share_opening.is_some());
    app.tick_share(Tunnel::Pending);
    assert!(app.share_opening.is_some());
    app.tick_share(Tunnel::Done(Err("no edge".to_string())));
    assert!(app.share_opening.is_none());
    assert!(app.serving.is_none());

    app.start_serving(true);
    app.tick_share(Tunnel::Done(Ok(serving(Some("https://a.trycloudflare.com/?t=x")))));
    assert!(app.serving.is_some());
    app.stop_serving();
    assert!(app.serving.is_none());
    assert!(app.effects.iter().any(|e| matches!(e, Effect::StopServing)));
}

#[test]
fn a_page_that_cannot_be_served_says_why() {
    let mut app = test_app();
    app.start_serving(false);
    app.served(Err("port taken".to_string()));
    assert!(app.serving.is_none());
    assert!(app.serve_error.clone().unwrap().contains("port taken"));
    app.served(Ok(serving(None)));
    assert!(app.serving.is_some());
}

/// A terminal that is not held by a session here cannot be shared.
#[test]
fn a_terminal_is_shared_with_a_link() {
    let mut app = test_app();
    app.sessions = vec![session("a", true, "/x")];
    app.refilter();
    app.share_selected(Some("cctop-a".to_string()));
    assert_eq!(app.status.clone().unwrap().0, "Selected session has no local process");
    app.sessions[0].process =
        Some(Process { pid: 9, command: command(), cpu: 0, memory: 0, pids: 1, list: vec![] });
    app.share_selected(None);
    assert!(!app.effects.iter().any(|e| matches!(e, Effect::ShareTerminal { .. })));
    app.share_selected(Some("cctop-a".to_string()));
    assert!(app.effects.iter().any(|e| matches!(e, Effect::ShareTerminal { name, .. } if name == "cctop-a")));
    app.shared("a", Err("rmux is too old".to_string()));
    assert!(app.status.clone().unwrap().0.contains("rmux is too old"));
    app.shared("a", Ok((Share { operator: Some("https://s.io/x".to_string()), pin: None }, true)));
    assert!(app.status.is_some());
}

/// A code beside a link, where there is room for it.
#[test]
fn a_shared_terminal_is_shown_as_a_code() {
    let share =
        ShareCode { label: "a".to_string(), link: "https://s.io/x".to_string(), pin: Some("1234".to_string()) };
    let wide = share_code(&share, Rect::new(0, 0, 120, 60));
    assert!(wide.code.is_some());
    assert!(wide.text.lines.iter().any(|l| l.words().contains("1234")));
    let small = share_code(&share, Rect::new(0, 0, 30, 8));
    assert!(small.code.is_none());
}

#[test]
fn a_spinner_goes_round() {
    assert_eq!(Opening { since: 0 }.frame(0), FRAMES[0]);
    assert!(FRAMES.contains(&spinner_frame(12_345)));
    assert_ne!(spinner_frame(0), spinner_frame(500));
}

/// What is copied comes back out of the sequence that carries it.
#[test]
fn bytes_are_carried_in_sixty_fours() {
    assert_eq!(b64_encode(b""), "");
    assert_eq!(b64_encode(b"f"), "Zg==");
    assert_eq!(b64_encode(b"fo"), "Zm8=");
    assert_eq!(b64_encode(b"foobar"), "Zm9vYmFy");
    assert_eq!(b64_encode(&[0xff, 0xfe, 0x00]), "//4A");
    assert_eq!(clipboard_sequence("foobar"), "\x1b]52;c;Zm9vYmFy\x07");
    assert_eq!(HELPERS[1], "xclip");
    assert_eq!(helper_arguments(1), ["-selection", "clipboard"]);
}
