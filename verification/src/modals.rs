//! What is drawn over the screen: how large it is, where it goes, and what it
//! says.

use vstd::prelude::*;

use crate::bar::column;
use crate::geometry::Rect;
use crate::outside::{cells, cells_of};
use crate::qr::Qr;
use crate::styled::{blank, Line, LineView, SpanView, Text};
use crate::text::{cat, dec, decimal};

pub mod accounts;
pub mod confirm;
pub mod help;
pub mod insight;
pub mod launch;
pub mod menu;
pub mod options;
pub mod search;
pub mod serve;
pub mod tabs;

verus! {

/// A rectangle on the screen: no part of it is beyond the last row or column.
pub open spec fn on_screen(area: Rect) -> bool {
    area.x + area.width <= u16::MAX && area.y + area.height <= u16::MAX
}

/// A rectangle of a size in the middle of an area, a cell off its edges.
pub open spec fn middle(area: Rect, width: u16, height: u16) -> Rect {
    let w = if width < area.width - 2 {
        width as int
    } else if area.width < 2 {
        0
    } else {
        area.width - 2
    };
    let h = if height < area.height - 2 {
        height as int
    } else if area.height < 2 {
        0
    } else {
        area.height - 2
    };
    Rect {
        x: (area.x + (area.width - w) / 2) as u16,
        y: (area.y + (area.height - h) / 2) as u16,
        width: w as u16,
        height: h as u16,
    }
}

/// A rectangle of a size in the middle of an area, clamped to it.
pub fn centered(area: Rect, width: u16, height: u16) -> (r: Rect)
    requires
        on_screen(area),
    ensures
        r == middle(area, width, height),
        r.within(area),
{
    let (most_w, most_h): (u16, u16) = (area.width.saturating_sub(2), area.height.saturating_sub(2));
    let w: u16 = if width < most_w {
        width
    } else {
        most_w
    };
    let h: u16 = if height < most_h {
        height
    } else {
        most_h
    };
    Rect { x: area.x + (area.width - w) / 2, y: area.y + (area.height - h) / 2, width: w, height: h }
}

/// What a border leaves of a rectangle.
pub open spec fn framed(outer: Rect) -> Rect {
    Rect {
        x: (if outer.x + 1 < outer.end_x() {
            outer.x + 1
        } else {
            outer.end_x()
        }) as u16,
        y: (if outer.y + 1 < outer.end_y() {
            outer.y + 1
        } else {
            outer.end_y()
        }) as u16,
        width: (if outer.width < 2 {
            0
        } else {
            outer.width - 2
        }) as u16,
        height: (if outer.height < 2 {
            0
        } else {
            outer.height - 2
        }) as u16,
    }
}

/// What a border leaves of a rectangle.
pub fn inside_border(outer: Rect) -> (r: Rect)
    ensures
        r == framed(outer),
{
    let (right, bottom): (u16, u16) = (outer.right(), outer.bottom());
    let (x, y): (u16, u16) = (outer.x.saturating_add(1), outer.y.saturating_add(1));
    Rect {
        x: if x < right {
            x
        } else {
            right
        },
        y: if y < bottom {
            y
        } else {
            bottom
        },
        width: outer.width.saturating_sub(2),
        height: outer.height.saturating_sub(2),
    }
}

/// The cells the first `n` spans take up.
pub open spec fn span_cells(spans: Seq<SpanView>, n: int) -> int
    decreases n,
{
    if n <= 0 {
        0
    } else {
        span_cells(spans, n - 1) + cells(spans[n - 1].text)
    }
}

/// The cells a line takes up.
pub open spec fn line_cells(l: LineView) -> int {
    span_cells(l.spans, l.spans.len() as int)
}

/// The cells a line takes up.
pub fn line_width(l: &Line) -> (r: u128)
    ensures
        r == line_cells(l@),
{
    let mut sum: u128 = 0;
    let mut i: usize = 0;
    let n: usize = l.spans.len();
    while i < n
        invariant
            i <= n,
            n == l.spans@.len(),
            sum == span_cells(l@.spans, i as int),
            sum <= i * 0xffff_ffff_ffff_ffff,
        decreases n - i,
    {
        let w: usize = cells_of(l.spans[i].text.as_str());
        assert(l@.spans[i as int].text == l.spans@[i as int].text@);
        assert(sum + w <= (i + 1) * 0xffff_ffff_ffff_ffff && sum + w <= u128::MAX) by (nonlinear_arith)
            requires
                sum <= i * 0xffff_ffff_ffff_ffff,
                0 <= w <= 0xffff_ffff_ffff_ffff,
                0 <= i < 0xffff_ffff_ffff_ffff,
        ;
        sum = sum + w as u128;
        i += 1;
    }
    sum
}

/// The rows a line takes up wrapped to `width` columns: an empty one is a row too.
pub open spec fn line_rows(l: LineView, width: int) -> int {
    let w = if width < 1 {
        1
    } else {
        width
    };
    if line_cells(l) < 1 {
        1
    } else {
        (line_cells(l) - 1) / w + 1
    }
}

/// The rows the first `n` lines take up wrapped to `width` columns.
pub open spec fn rows_of(lines: Seq<LineView>, width: int, n: int) -> int
    decreases n,
{
    if n <= 0 {
        0
    } else {
        rows_of(lines, width, n - 1) + line_rows(lines[n - 1], width)
    }
}

proof fn rows_are_counted(lines: Seq<LineView>, width: int, n: int)
    ensures
        rows_of(lines, width, n) >= 0,
    decreases n,
{
    if n > 0 {
        rows_are_counted(lines, width, n - 1);
        let w = if width < 1 {
            1
        } else {
            width
        };
        let c = line_cells(lines[n - 1]);
        if c >= 1 {
            assert((c - 1) / w >= 0) by (nonlinear_arith)
                requires
                    c >= 1,
                    w >= 1,
            ;
        }
    }
}

/// The rows the lines before `n` take up wrapped to `width` columns, as far as
/// rows go.
pub fn rows_before(lines: &Text, width: u16, n: usize) -> (r: u16)
    requires
        n <= lines@.len(),
    ensures
        r == column(rows_of(lines@, width as int, n as int)),
{
    let w: u128 = if width < 1 {
        1
    } else {
        width as u128
    };
    let mut sum: u16 = 0;
    let mut i: usize = 0;
    while i < n
        invariant
            i <= n <= lines@.len(),
            w == (if width < 1 {
                1
            } else {
                width as int
            }),
            sum == column(rows_of(lines@, width as int, i as int)),
        decreases n - i,
    {
        proof {
            rows_are_counted(lines@, width as int, i as int);
        }
        let c: u128 = line_width(&lines.lines[i]);
        assert(lines@[i as int] == lines.lines@[i as int]@);
        let rows: u128 = if c < 1 {
            1
        } else {
            (c - 1) / w
        };
        let rows: u128 = if c < 1 {
            rows
        } else if rows >= u16::MAX as u128 {
            u16::MAX as u128
        } else {
            rows + 1
        };
        sum = if rows > (u16::MAX - sum) as u128 {
            u16::MAX
        } else {
            sum + rows as u16
        };
        i += 1;
    }
    sum
}

/// The rows the lines take up wrapped to `width` columns.
pub fn wrapped_rows(lines: &Text, width: u16) -> (r: u16)
    ensures
        r == column(rows_of(lines@, width as int, lines@.len() as int)),
{
    rows_before(lines, width, lines.len())
}

/// Where a modal is: what it covers, and what its border leaves for its lines.
#[derive(Debug, Clone, Copy, PartialEq, Eq, Structural)]
pub struct Placed {
    pub outer: Rect,
    pub inner: Rect,
}

/// Where a modal of `lines` is, `width` columns wide: as tall as its lines are
/// when wrapped, so that none is drawn through its border.
pub open spec fn modal_place(area: Rect, lines: Seq<LineView>, width: u16) -> Placed {
    let inner = if width < 2 {
        0
    } else {
        width - 2
    };
    let outer = middle(area, width, column(rows_of(lines, inner, lines.len() as int) + 2));
    Placed { outer, inner: framed(outer) }
}

/// Where a modal of `lines` is.
pub fn modal(area: Rect, lines: &Text, width: u16) -> (r: Placed)
    requires
        on_screen(area),
    ensures
        r == modal_place(area, lines@, width),
{
    proof {
        let inner = if width < 2 {
            0
        } else {
            width - 2
        };
        rows_are_counted(lines@, inner, lines@.len() as int);
    }
    let rows: u16 = wrapped_rows(lines, width.saturating_sub(2));
    let outer = centered(area, width, rows.saturating_add(2));
    Placed { outer, inner: inside_border(outer) }
}

/// A modal is inside the screen, and its lines inside the modal.
pub proof fn a_modal_stays_on_the_screen(area: Rect, lines: Seq<LineView>, width: u16)
    requires
        on_screen(area),
    ensures
        modal_place(area, lines, width).outer.within(area),
        modal_place(area, lines, width).inner.within(modal_place(area, lines, width).outer) || modal_place(
            area,
            lines,
            width,
        ).inner.width == 0 || modal_place(area, lines, width).inner.height == 0,
{
}

/// The columns a modal has for its lines in an area.
pub open spec fn columns_for(area: Rect, width: u16) -> int {
    let w = if width < area.width - 2 {
        width as int
    } else if area.width < 2 {
        0
    } else {
        area.width - 2
    };
    if w < 2 {
        0
    } else {
        w - 2
    }
}

/// The row a code starts on at line `at` of a modal `width` columns wide, or
/// `None` where the modal would be taller than the area, or is too narrow for the
/// code and a column on either side.
pub open spec fn code_row(area: Rect, width: u16, lines: Seq<LineView>, at: int, qr: Qr) -> Option<u16> {
    let inner = columns_for(area, width);
    let rows = rows_of(lines, inner, lines.len() as int) + qr.height + 2;
    let most = if area.height < 2 {
        0
    } else {
        area.height - 2
    };
    if qr.width > (if inner < 2 {
        0
    } else {
        inner - 2
    }) || rows > most {
        None
    } else {
        Some(rows_of(lines, inner, at) as u16)
    }
}

/// `n` empty lines.
pub open spec fn gaps(n: int) -> Seq<LineView> {
    Seq::new(n as nat, |i: int| blank())
}

proof fn rows_grow(lines: Seq<LineView>, width: int, m: int, n: int)
    requires
        m <= n,
    ensures
        rows_of(lines, width, m) <= rows_of(lines, width, n),
    decreases n - m,
{
    if m < n {
        rows_grow(lines, width, m, n - 1);
        if n > 0 {
            let w = if width < 1 {
                1
            } else {
                width
            };
            let c = line_cells(lines[n - 1]);
            if c >= 1 {
                assert((c - 1) / w >= 0) by (nonlinear_arith)
                    requires
                        c >= 1,
                        w >= 1,
                ;
            }
        }
    }
}

/// Make room for a code at line `at` of a modal, if it fits: blank lines, so that
/// the modal grows by exactly the code's height. The row it starts on is returned.
/// Where it does not fit the lines are left as they are.
pub fn make_room_for_qr(area: Rect, width: u16, lines: &mut Text, at: usize, qr: &Qr) -> (r: Option<u16>)
    requires
        at <= old(lines)@.len(),
    ensures
        r == code_row(area, width, old(lines)@, at as int, *qr),
        final(lines)@ == (if r is Some {
            old(lines)@.take(at as int) + gaps(qr.height as int) + old(lines)@.skip(at as int)
        } else {
            old(lines)@
        }),
{
    let most_w: u16 = area.width.saturating_sub(2);
    let w: u16 = if width < most_w {
        width
    } else {
        most_w
    };
    let inner: u16 = w.saturating_sub(2);
    assert(inner == columns_for(area, width));
    proof {
        rows_are_counted(lines@, inner as int, lines@.len() as int);
        rows_are_counted(lines@, inner as int, at as int);
        rows_grow(lines@, inner as int, at as int, lines@.len() as int);
    }
    let rows: u32 = wrapped_rows(lines, inner) as u32 + qr.height as u32 + 2;
    if !qr.fits(inner.saturating_sub(2), u16::MAX) || rows > area.height.saturating_sub(2) as u32 {
        return None;
    }
    let row: u16 = rows_before(lines, inner, at);
    let ghost was = lines@;
    let mut i: u16 = 0;
    assert(lines@ =~= was.take(at as int) + gaps(0) + was.skip(at as int));
    while i < qr.height
        invariant
            i <= qr.height,
            at <= was.len(),
            lines@ == was.take(at as int) + gaps(i as int) + was.skip(at as int),
        decreases qr.height - i,
    {
        let ghost before = lines@;
        assert(lines.lines@.len() == before.len());
        lines.lines.insert(at, Line::new());
        assert(lines@ =~= before.insert(at as int, blank()));
        assert(lines@ =~= was.take(at as int) + gaps(i + 1) + was.skip(at as int));
        i += 1;
    }
    Some(row)
}

/// Where a code is drawn in the room left for it at `row` of a modal.
pub fn code_area(inner: Rect, row: u16, qr: &Qr) -> (r: Rect)
    ensures
        r == (Rect { y: column(inner.y + row), height: qr.height, ..inner }).met(inner),
{
    Rect { x: inner.x, y: inner.y.saturating_add(row), width: inner.width, height: qr.height }.intersection(inner)
}

/// A modal that may be taller than the screen.
pub struct Scrolling {
    pub outer: Rect,
    pub inner: Rect,
    /// How far it is scrolled.
    pub scroll: u16,
    /// How far it can be.
    pub most: u16,
    /// What stands on its border where there is more than is shown.
    pub note: Option<String>,
}

/// What says how much of the lines is shown.
pub open spec fn scroll_note(scroll: int, height: int, total: int) -> Seq<char> {
    let last = if scroll + height < total {
        scroll + height
    } else {
        total
    };
    " "@ + dec((scroll + 1) as nat) + "–"@ + dec(last as nat) + " of "@ + dec(total as nat) + "   ↑↓ scroll "@
}

impl Scrolling {
    /// Whether this is where a modal of `total` lines is, scrolled so far.
    pub open spec fn shows(&self, area: Rect, total: int, width: u16, scroll: u16) -> bool {
        let outer = middle(area, width, (total + 2) as u16);
        let inner = framed(outer);
        let most = if total < inner.height {
            0
        } else {
            total - inner.height
        };
        let at = if scroll < most {
            scroll as int
        } else {
            most
        };
        &&& self.outer == outer
        &&& self.inner == inner
        &&& self.most == most
        &&& self.scroll == at
        &&& match self.note {
            Some(n) => most > 0 && n@ == scroll_note(at, inner.height as int, total),
            None => most == 0,
        }
    }
}

/// Where a modal of `total` lines is. What does not fit is scrolled to, and the
/// border says that there is more: it takes up no line, and cannot scroll away.
pub fn scrollable_modal(area: Rect, total: u16, width: u16, scroll: u16) -> (r: Scrolling)
    requires
        on_screen(area),
        total + 2 <= u16::MAX,
    ensures
        r.shows(area, total as int, width, scroll),
{
    let outer = centered(area, width, total + 2);
    let inner = inside_border(outer);
    let most: u16 = total.saturating_sub(inner.height);
    let at: u16 = if scroll < most {
        scroll
    } else {
        most
    };
    let note = if most > 0 {
        let end: u32 = at as u32 + inner.height as u32;
        let last: u32 = if end < total as u32 {
            end
        } else {
            total as u32
        };
        let mut s = cat(" ", decimal(at as u128 + 1).as_str());
        s.append("–");
        s.append(decimal(last as u128).as_str());
        s.append(" of ");
        s.append(decimal(total as u128).as_str());
        s.append("   ↑↓ scroll ");
        Some(s)
    } else {
        None
    };
    Scrolling { outer, inner, scroll: at, most, note }
}

/// Whether a line is shown in `height` rows scrolled to `to`.
pub open spec fn in_sight(line: int, to: u16, height: u16) -> bool {
    to <= line < to + height
}

/// Every line of a modal can be scrolled to.
pub proof fn every_line_can_be_scrolled_to(area: Rect, total: int, width: u16, line: int, s: Scrolling, scroll: u16)
    requires
        on_screen(area),
        0 <= line < total,
        total + 2 <= u16::MAX,
        area.height >= 5,
        s.shows(area, total, width, scroll),
    ensures
        exists|to: u16| to <= s.most && #[trigger] in_sight(line, to, s.inner.height),
{
    let to: u16 = if line < s.most {
        line as u16
    } else {
        s.most
    };
    assert(s.inner.height > 0);
    assert(in_sight(line, to, s.inner.height));
}

/// A line takes up as many rows as its cells fill and no more, and an empty one a row.
pub proof fn a_line_fills_its_rows(l: LineView, width: int)
    requires
        width >= 1,
        line_cells(l) >= 0,
    ensures
        line_rows(l, width) >= 1,
        line_rows(l, width) * width >= line_cells(l),
        line_cells(l) > 0 ==> (line_rows(l, width) - 1) * width < line_cells(l),
        line_cells(l) <= width ==> line_rows(l, width) == 1,
{
    let n = line_cells(l);
    if n >= 1 {
        vstd::arithmetic::div_mod::lemma_fundamental_div_mod(n - 1, width);
        let (q, r) = ((n - 1) / width, (n - 1) % width);
        assert((q + 1) * width >= n && q * width < n && q >= 0) by (nonlinear_arith)
            requires
                n - 1 == width * q + r,
                0 <= r < width,
                n >= 1,
                width >= 1,
        ;
        if n <= width {
            vstd::arithmetic::div_mod::lemma_small_mod((n - 1) as nat, width as nat);
            assert(q == 0) by (nonlinear_arith)
                requires
                    n - 1 == width * q + r,
                    r == n - 1,
                    width >= 1,
            ;
        }
    }
}

/// A rectangle in the middle is as far from one edge as from the one across from it, to
/// a cell, and as large as it was asked to be where that fits.
pub proof fn the_middle_is_in_the_middle(area: Rect, width: u16, height: u16)
    requires
        on_screen(area),
    ensures
        ({
            let r = middle(area, width, height);
            let left = r.x - area.x;
            let right = area.x + area.width - r.x - r.width;
            let above = r.y - area.y;
            let below = area.y + area.height - r.y - r.height;
            &&& 0 <= left <= right <= left + 1
            &&& 0 <= above <= below <= above + 1
            &&& width + 2 <= area.width ==> r.width == width
            &&& height + 2 <= area.height ==> r.height == height
            &&& area.width >= 2 ==> left >= 1
            &&& area.height >= 2 ==> above >= 1
        }),
{
}

/// The note says which lines are in sight, of how many.
pub proof fn the_note_says_what_is_in_sight(scroll: int, height: int, total: int)
    requires
        0 <= scroll,
        0 <= height,
        0 <= total,
    ensures
        scroll + height <= total ==> scroll_note(scroll, height, total) == " "@ + dec((scroll + 1) as nat) + "–"@ + dec(
            (scroll + height) as nat,
        ) + " of "@ + dec(total as nat) + "   ↑↓ scroll "@,
        scroll + height > total ==> scroll_note(scroll, height, total) == " "@ + dec((scroll + 1) as nat) + "–"@ + dec(
            total as nat,
        ) + " of "@ + dec(total as nat) + "   ↑↓ scroll "@,
{
}

} // verus!
