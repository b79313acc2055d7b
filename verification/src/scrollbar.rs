//! The scrollbar every scrolled view draws on its own right border.
//!
//! On the border rather than in a column of its own, and only when the content
//! overflows: a thumb the length of its track says nothing.

use vstd::prelude::*;

use crate::geometry::Rect;

verus! {

/// Where a scrollbar stands: how many offsets the view can take, how many rows
/// are in view, and at which offset.
#[derive(Debug, Clone, Copy, PartialEq, Eq, Structural)]
pub struct Thumb {
    pub positions: usize,
    pub viewport: usize,
    pub at: usize,
}

/// The scrollbar over `track` for `total` rows of which `visible` are shown from
/// `offset`; nothing when everything fits.
pub fn thumb(track: Rect, total: usize, visible: usize, offset: usize) -> (r: Option<Thumb>)
    ensures
        r == (if total <= visible || visible == 0 || track.height == 0 || track.width == 0 {
            None
        } else {
            Some(
                Thumb {
                    positions: (total - visible + 1) as usize,
                    viewport: visible,
                    at: if offset < total - visible {
                        offset
                    } else {
                        (total - visible) as usize
                    },
                },
            )
        }),
{
    if total <= visible || visible == 0 || track.height == 0 || track.width == 0 {
        return None;
    }
    let most: usize = total - visible;
    let at: usize = if offset < most {
        offset
    } else {
        most
    };
    Some(Thumb { positions: most + 1, viewport: visible, at })
}

/// The right border of the bordered box `outer`, between its corners, from row
/// `from` for `rows` rows.
pub open spec fn track_of(outer: Rect, from: int, rows: int) -> Rect {
    let top = if from > outer.y + 1 {
        from
    } else {
        outer.y + 1
    };
    let last = if outer.end_y() == 0 {
        0
    } else {
        outer.end_y() - 1
    };
    let end = if from + rows < last {
        from + rows
    } else {
        last
    };
    Rect {
        x: (if outer.end_x() == 0 {
            0
        } else {
            outer.end_x() - 1
        }) as u16,
        y: top as u16,
        width: 1,
        height: (if end > top {
            end - top
        } else {
            0
        }) as u16,
    }
}

/// The right border of the bordered box `outer`, between its corners, from row
/// `from` for `rows` rows.
pub fn right_border(outer: Rect, from: u16, rows: u16) -> (r: Rect)
    requires
        outer.y < u16::MAX,
        from + rows <= u16::MAX,
    ensures
        r == track_of(outer, from as int, rows as int),
{
    let top: u16 = if from > outer.y + 1 {
        from
    } else {
        outer.y + 1
    };
    let last: u16 = outer.bottom().saturating_sub(1);
    let end: u16 = if from + rows < last {
        from + rows
    } else {
        last
    };
    Rect { x: outer.right().saturating_sub(1), y: top, width: 1, height: end.saturating_sub(top) }
}

/// The track down the whole right border of `outer`, for a box whose every inner
/// row is the scrolled text.
pub fn on_border(outer: Rect) -> (r: Rect)
    requires
        outer.y + outer.height <= u16::MAX,
        outer.y < u16::MAX,
    ensures
        r == track_of(outer, outer.y + 1, if outer.height >= 2 {
            outer.height - 2
        } else {
            0
        }),
{
    right_border(outer, outer.y + 1, outer.height.saturating_sub(2))
}

/// A track never reaches a corner of its box.
pub proof fn a_track_stays_off_the_corners(outer: Rect, from: int, rows: int, y: int)
    requires
        outer.y + outer.height <= u16::MAX,
        0 <= from <= u16::MAX,
        0 <= rows,
        track_of(outer, from, rows).y <= y < track_of(outer, from, rows).y + track_of(outer, from, rows).height,
    ensures
        outer.y < y < outer.y + outer.height - 1,
{
}

} // verus!
