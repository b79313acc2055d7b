//! A link drawn as a code, for the panels that hand one to another device.
//!
//! A code *is* the link, legibly: anything that can photograph it can open it. So
//! it is drawn only where the link has already been handed over.

use vstd::prelude::*;

use crate::geometry::Rect;
use crate::outside::{qr_modules, qr_modules_of};

verus! {

/// A link that can be drawn as a code, with the cells that takes.
#[derive(Debug, Clone, Copy, PartialEq, Eq, Structural)]
pub struct Qr {
    pub width: u16,
    pub height: u16,
}

/// The cells a code of so many modules takes: a cell is one module wide and two
/// tall, and a light margin of four modules stands on every side.
pub open spec fn cells_of(modules: int) -> Qr {
    Qr { width: (modules + 8) as u16, height: ((modules + 9) / 2) as u16 }
}

/// The cells a code of so many modules takes.
pub fn sized(modules: usize) -> (r: Qr)
    requires
        modules + 9 <= u16::MAX,
    ensures
        r == cells_of(modules as int),
        r.height == (r.width + 1) / 2,
{
    let width: u16 = modules as u16 + 8;
    Qr { width, height: (width + 1) / 2 }
}

/// Encode `url`, or `None` for a link too long for any code.
///
/// With the least error correction there is: a code on a screen is either all
/// there or not there at all, and every level up adds rows that a small terminal
/// does not have.
pub fn encode(url: &str) -> (r: Option<Qr>)
    ensures
        r == (match qr_modules(url@) {
            Some(n) => Some(cells_of(n as int)),
            None => None,
        }),
        r matches Some(qr) ==> qr.height == (qr.width + 1) / 2 && 29 <= qr.width <= 185,
{
    match qr_modules_of(url) {
        Some(n) => Some(sized(n)),
        None => None,
    }
}

impl Qr {
    /// Whether it fits in `width` by `height` cells at its natural size.
    ///
    /// Never scaled down: a module is already one cell wide. A code that does not
    /// fit is not drawn at all, because half a code scans as nothing.
    pub fn fits(&self, width: u16, height: u16) -> (r: bool)
        ensures
            r == (self.width <= width && self.height <= height),
    {
        self.width <= width && self.height <= height
    }

    /// Where it is drawn in `area`: in the middle, from the top row, and nowhere
    /// where it does not fit.
    pub fn draw(&self, area: Rect) -> (r: Option<Rect>)
        requires
            area.x + area.width <= u16::MAX,
        ensures
            r == (if self.width <= area.width && self.height <= area.height {
                Some(
                    Rect {
                        x: (area.x + (area.width - self.width) / 2) as u16,
                        y: area.y,
                        width: self.width,
                        height: self.height,
                    },
                )
            } else {
                None
            }),
            r matches Some(at) ==> at.within(area),
    {
        if !self.fits(area.width, area.height) {
            return None;
        }
        Some(
            Rect {
                x: area.x + (area.width - self.width) / 2,
                y: area.y,
                width: self.width,
                height: self.height,
            },
        )
    }
}

/// A code has room for its modules and a margin of four on either side, two rows of
/// modules to a cell.
pub proof fn a_code_fits_its_cells(modules: int)
    requires
        0 < modules <= 1000,
    ensures
        cells_of(modules).width == modules + 8,
        2 * cells_of(modules).height >= modules + 8,
        2 * cells_of(modules).height <= modules + 9,
{
}

} // verus!
