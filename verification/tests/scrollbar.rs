use cctop::geometry::Rect;
use cctop::scrollbar::{on_border, right_border, thumb};
use ratatui::backend::TestBackend;
use ratatui::buffer::Buffer;
use ratatui::widgets::{Block, Scrollbar, ScrollbarOrientation, ScrollbarState};
use ratatui::Terminal;

const THUMB: &str = "┃";

fn thumb_cells(buf: &Buffer) -> usize {
    buf.content().iter().filter(|c| c.symbol() == THUMB).count()
}

fn drawn(total: usize, offset: usize) -> Buffer {
    let mut terminal = Terminal::new(TestBackend::new(20, 12)).expect("backend");
    terminal
        .draw(|frame| {
            let outer = frame.area();
            frame.render_widget(Block::bordered(), outer);
            let track = on_border(Rect::new(outer.x, outer.y, outer.width, outer.height));
            if let Some(t) = thumb(track, total, 10, offset) {
                let bar = Scrollbar::new(ScrollbarOrientation::VerticalRight)
                    .begin_symbol(None)
                    .end_symbol(None)
                    .track_symbol(None)
                    .thumb_symbol(THUMB);
                let mut state =
                    ScrollbarState::new(t.positions).viewport_content_length(t.viewport).position(t.at);
                let track = ratatui::layout::Rect::new(track.x, track.y, track.width, track.height);
                frame.render_stateful_widget(bar, track, &mut state);
            }
        })
        .expect("draw");
    terminal.backend().buffer().clone()
}

#[test]
fn nothing_is_drawn_when_it_fits() {
    assert_eq!(thumb_cells(&drawn(10, 0)), 0);
    assert_eq!(thumb_cells(&drawn(3, 0)), 0);
}

/// Twice the rows is half the track, and the thumb stays on the border between
/// the corners wherever the view is.
#[test]
fn the_thumb_is_the_share_shown_and_moves_with_the_view() {
    let top = drawn(20, 0);
    assert_eq!(thumb_cells(&top), 5);
    assert_eq!(top[(19, 1)].symbol(), THUMB);
    assert_eq!(top[(19, 0)].symbol(), "┐");

    let bottom = drawn(20, 10);
    assert_eq!(thumb_cells(&bottom), 5);
    assert_eq!(bottom[(19, 10)].symbol(), THUMB);
    assert_eq!(bottom[(19, 11)].symbol(), "┘");
    assert_eq!(bottom[(19, 1)].symbol(), "│");
}

#[test]
fn a_track_stays_between_the_corners() {
    let outer = Rect::new(2, 3, 20, 12);
    assert_eq!(on_border(outer), Rect::new(21, 4, 1, 10));
    assert_eq!(right_border(outer, 8, 4), Rect::new(21, 8, 1, 4));
    let over = thumb(on_border(outer), 30, 10, 99).unwrap();
    assert_eq!((over.positions, over.at), (21, 20));
}
