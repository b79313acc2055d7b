use cctop::geometry::Rect;
use cctop::qr::{encode, sized};

/// Modules plus eight columns of quiet zone across, half that down, rounded up.
#[test]
fn a_code_is_as_big_as_its_link_needs_and_no_bigger() {
    let short = encode("https://example.com/").expect("encodes");
    // Twenty bytes are 25 modules, and with the quiet zone 33 by 17 cells.
    assert_eq!((short.width, short.height), (33, 17));
    let link = format!(
        "https://tribute-resistance-resolved-moscow.trycloudflare.com/?t={}",
        "0123456789abcdef".repeat(2)
    );
    let long = encode(&link).expect("encodes");
    assert!(long.width > short.width && long.height > short.height);
    assert_eq!(long.height, long.width.div_ceil(2));
}

/// Too small is nothing at all, not the top-left of a code.
#[test]
fn a_code_that_does_not_fit_draws_nothing() {
    let qr = encode("https://example.com/").expect("encodes");
    assert_eq!(qr.draw(Rect::new(0, 0, qr.width - 1, qr.height)), None);
    assert!(!qr.fits(qr.width - 1, qr.height));
    // Centred: two columns either side are left alone.
    assert_eq!(
        qr.draw(Rect::new(0, 0, qr.width + 4, qr.height)),
        Some(Rect::new(2, 0, qr.width, qr.height))
    );
}

/// What is too long for any code has none.
#[test]
fn a_link_too_long_for_a_code_has_none() {
    assert!(encode(&"x".repeat(8000)).is_none());
    let q = sized(21);
    assert_eq!((q.width, q.height), (29, 15));
}
