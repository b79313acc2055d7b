//! Content builders for the bottom panels.
//!
//! Each returns lines, so that the caller can scroll and clip uniformly. What a
//! panel needs of the machine (the clock, the time zone, files, the account that
//! is signed in) it is handed.

use vstd::prelude::*;

use crate::styled::{blank, Ink, Line, LineView};
use crate::text::{left_in, pad_right};

pub mod agents;
pub mod conf;
pub mod context;
pub mod cost;
pub mod info;
pub mod log;
pub mod procs;

pub use crate::panels::agents::{sort_subagents, subagents, SubagentSort};
pub use crate::panels::conf::config;
pub use crate::panels::context::context;
pub use crate::panels::cost::cost;
pub use crate::panels::info::info;
pub use crate::panels::log::{detail_key, tool_activity, tool_tabs};
pub use crate::panels::procs::processes;
pub use crate::remote::Clash;

verus! {

/// The bottom panels, in the order of their number keys.
pub const TABS: [&'static str; 9] = [
    "Info",
    "Performance",
    "Processes",
    "Tool Activity",
    "Subagents",
    "Cost",
    "Config",
    "Context",
    "Preview",
];

/// A name, padded to the column the values begin in.
pub open spec fn named(name: Seq<char>) -> LineView {
    blank().with(left_in(name, 9), Ink::Label).with(" "@, Ink::Plain)
}

/// A name, padded to the column the values begin in.
pub fn name_of(name: &str) -> (r: Line)
    ensures
        r@ == named(name@),
{
    let mut l = Line::new();
    l.put(pad_right(name, 9).as_str(), Ink::Label);
    l.put(" ", Ink::Plain);
    l
}

/// A name and its value.
pub open spec fn field_line(name: Seq<char>, val: Seq<char>) -> LineView {
    named(name).with(val, Ink::Value)
}

/// A name and its value.
pub fn field(name: &str, val: &str) -> (r: Line)
    ensures
        r@ == field_line(name@, val@),
{
    let mut l = name_of(name);
    l.put(val, Ink::Value);
    l
}

} // verus!
