use cctop::app::{App, Effect, Mode};
use cctop::geometry::Rect;
use cctop::keyboard::{Key, KeyCode};
use cctop::model::{Names, Plan, Provider, Session};
use cctop::rave::{code_key, crowd, glints, scatter, Heard, Rave};
use cctop::sound::{aplay, pacat, STATION};

fn command() -> String {
    format!("{:?}", Provider::Claude).to_lowercase()
}

fn names() -> Names {
    Names {
        command: command(),
        title: format!("{:?}", Provider::Claude),
        file: format!("{}.md", command().to_uppercase()),
    }
}

fn test_app() -> App {
    App::new(Plan::Retail, "1.0.0".to_string(), names())
}

fn type_code(rave: &mut Rave) -> Vec<Heard> {
    (0..10).map(|i| rave.hear(code_key(i), 5)).collect()
}

/// The code toggles the party both ways, and only its `b` and `a` are kept from
/// the table.
#[test]
fn the_code_starts_the_party_and_ends_it() {
    let mut rave = Rave::new();
    let heard = type_code(&mut rave);
    assert!(heard[..8].iter().all(|h| *h == Heard::Pass), "{heard:?}");
    assert_eq!(heard[8], Heard::Swallow);
    assert_eq!(heard[9], Heard::Toggle);
    assert!(rave.elapsed(5).is_some());
    type_code(&mut rave);
    assert!(rave.elapsed(5).is_none());
}

/// A slip starts the code over, and extra ups at the start are forgiven.
#[test]
fn a_wrong_key_starts_over_but_a_third_up_does_not() {
    let mut rave = Rave::new();
    rave.hear(KeyCode::Up, 0);
    rave.hear(KeyCode::Up, 0);
    rave.hear(KeyCode::Down, 0);
    assert_eq!(rave.hear(KeyCode::Char('x'), 0), Heard::Pass);
    assert_eq!(rave.heard, 0);
    // A plain `b` or `a` outside the code is the table's.
    assert_eq!(rave.hear(KeyCode::Char('b'), 0), Heard::Pass);
    for _ in 0..5 {
        rave.hear(KeyCode::Up, 0);
    }
    assert_eq!(rave.heard, 2);
    let rest: Vec<_> = (2..10).map(|i| rave.hear(code_key(i), 0)).collect();
    assert_eq!(rest.last(), Some(&Heard::Toggle));
}

/// Started over a modal the code is still heard.
#[test]
fn the_code_is_heard_away_from_the_table() {
    let mut app = test_app();
    app.mode = Mode::Help;
    for i in 0..10 {
        app.hear_rave(Key::of(code_key(i)));
    }
    assert!(app.raving());
}

/// A glint lands only on open ground, never in the space between words, and never
/// over a letter.
#[test]
fn the_mirror_ball_keeps_off_the_text() {
    let area = Rect::new(0, 0, 60, 20);
    let text = "a b c d e f g";
    let row: Vec<bool> = (0..60).map(|x| text.chars().nth(x).is_none_or(|c| c == ' ')).collect();
    let open: Vec<bool> = (0..20).flat_map(|_| row.clone()).collect();
    let mut seen = 0;
    for tick in 0..64 {
        for (x, y, glyph) in glints(&open, area, tick) {
            assert!(x > 13, "a glint at ({x}, {y}) is inside the text");
            assert!(glyph < 4);
            seen += 1;
        }
    }
    assert!(seen > 0, "the ball never threw any light");
}

/// A session asked for `ultracode` after the dashboard started starts the party
/// once; one from before it never does.
#[test]
fn ultracode_starts_the_party_once() {
    let mut app = test_app();
    app.started_at = "2026-01-01T00:00:00.000Z".to_string();
    let mut before = Session::new(Provider::Claude, command(), "old".to_string());
    before.ultracode_at = Some("2020-01-01T00:00:00.000Z".to_string());
    app.sessions.push(before);
    app.hear_ultracode();
    assert!(!app.raving(), "a prompt from before cctop started");

    let mut now = Session::new(Provider::Codex, "codex".to_string(), "new".to_string());
    now.ultracode_at = Some("2026-01-01T00:00:01.000Z".to_string());
    app.sessions.push(now);
    app.hear_ultracode();
    assert!(app.raving());
    assert!(app.effects.iter().any(|e| matches!(e, Effect::PlayMusic)));

    for i in 0..10 {
        app.hear_rave(Key::of(code_key(i)));
    }
    assert!(!app.raving());
    app.hear_ultracode();
    assert!(!app.raving(), "the same prompt, read again");
}

/// A key held with another is no key of the code.
#[test]
fn a_chord_is_not_in_the_code() {
    let mut app = test_app();
    app.hear_rave(Key::of(KeyCode::Up));
    app.hear_rave(Key { code: KeyCode::Up, ctrl: true, alt: false, shift: false });
    assert_eq!(app.rave.heard, 0);
}

#[test]
fn the_light_is_scattered_the_same_way_every_time() {
    let mut h = 3u32.wrapping_mul(0x9E37_79B1) ^ 4u32.wrapping_mul(0x85EB_CA77) ^ 5u32.wrapping_mul(0xC2B2_AE3D);
    h ^= h >> 15;
    h = h.wrapping_mul(0x2C1B_3C6D);
    h ^= h >> 12;
    assert_eq!(scatter(3, 4, 5), h);
    assert_eq!(scatter(0, 0, 0), 0);
}

/// Both players are told what the samples are.
#[test]
fn the_music_is_handed_to_a_player() {
    let p = pacat(44_100, 2);
    assert_eq!(p.program, "pacat");
    assert!(p.args.iter().any(|a| a.contains("44100")), "{:?}", p.args);
    let a = aplay(48_000, 2);
    assert_eq!(a.program, "aplay");
    assert!(a.args.iter().any(|x| x.contains("48000")), "{:?}", a.args);
    assert!(STATION.contains("SomaFM"));
}

/// The way out is across the middle, and a crowd either side of it where there is
/// room.
#[test]
fn the_crowd_stands_beside_the_way_out() {
    let wide = crowd(Rect::new(0, 23, 100, 1), false, false, 5).expect("a label");
    assert_eq!(wide.label, " ♫  ↑↑↓↓←→←→ba to go home  ♫ ");
    let n = wide.label.chars().count() as u16;
    assert_eq!(wide.at, (100 - n) / 2);
    assert_eq!(wide.dancers[0], (wide.at - 8, 1));
    assert_eq!(wide.dancers[3], (wide.at + n + 4, 0));
    assert_eq!(crowd(Rect::new(0, 0, 100, 1), true, true, 0).unwrap().label, " ♫  D R O P  ♫ ");
    assert_eq!(crowd(Rect::new(0, 0, 100, 1), false, true, 0).unwrap().label, " ♫  here it comes…  ♫ ");
    assert!(crowd(Rect::new(0, 0, n + 1, 1), false, false, 0).unwrap().dancers.is_empty());
    assert!(crowd(Rect::new(0, 0, n, 1), false, false, 0).is_none());
}
