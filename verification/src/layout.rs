//! Where things were drawn, so that a click can be mapped back to them.

use vstd::prelude::*;

use crate::app::ColumnId;
use crate::geometry::Rect;
use crate::keyboard::Key;

verus! {

/// Screen regions recorded while drawing, so that mouse events are mapped back to
/// what was actually drawn rather than to a guessed layout.
pub struct Layout {
    pub header_row: u16,
    pub rows_start: u16,
    pub rows_end: u16,
    pub tab_row: u16,
    pub bottom_start: u16,
    /// The first column, the one behind the last, and the column of the table.
    pub column_spans: Vec<(u16, u16, ColumnId)>,
    /// The first column, the one behind the last, and the bottom tab.
    pub tab_spans: Vec<(u16, u16, usize)>,
    /// The first column, the one behind the last, and the tab of the top bar.
    pub workspace_spans: Vec<(u16, u16, usize)>,
    /// The columns of the bar's new-tab button.
    pub workspace_new: Option<(u16, u16)>,
    /// The row and the columns of the footer's share corner, while it is drawn.
    pub share_corner: Option<(u16, u16, u16)>,
    /// What a modal covers while one is up.
    pub modal_rect: Option<Rect>,
    /// The row of each of the launcher's choices.
    pub launch_rows: Vec<(u16, usize)>,
    /// The row of each directory that is offered.
    pub launch_cwd_rows: Vec<(u16, usize)>,
    /// The row of each entry of the row menu.
    pub menu_rows: Vec<(u16, usize)>,
    /// The tool sidebar: the column behind it, its first row, the first entry on
    /// show, and how many are.
    pub tool_sidebar: Option<(u16, u16, usize, usize)>,
    /// The tool log: its first column, its first row, its height.
    pub tool_log: Option<(u16, u16, u16)>,
    /// Every place a key is written on screen as its own label: the row, the first
    /// column, the one behind the last, and the key.
    pub key_hits: Vec<(u16, u16, u16, Key)>,
    /// Where each pane of the open tab has its agent's screen.
    pub pane_rects: Vec<Rect>,
}

/// The first of the spans from `i` on that a column is in.
pub open spec fn span_at<T>(spans: Seq<(u16, u16, T)>, col: u16, i: int) -> Option<T>
    decreases spans.len() - i,
{
    if i < 0 || i >= spans.len() {
        None
    } else if spans[i].0 <= col < spans[i].1 {
        Some(spans[i].2)
    } else {
        span_at(spans, col, i + 1)
    }
}

fn find_span<T: Copy>(spans: &Vec<(u16, u16, T)>, col: u16) -> (r: Option<T>)
    ensures
        r == span_at(spans@, col, 0),
{
    let mut i: usize = 0;
    while i < spans.len()
        invariant
            i <= spans@.len(),
            span_at(spans@, col, 0) == span_at(spans@, col, i as int),
        decreases spans@.len() - i,
    {
        if col >= spans[i].0 && col < spans[i].1 {
            return Some(spans[i].2);
        }
        i += 1;
    }
    None
}

/// What is found is a span that holds the column.
pub proof fn what_is_clicked_is_under_the_pointer<T>(spans: Seq<(u16, u16, T)>, col: u16, i: int)
    requires
        0 <= i,
    ensures
        match span_at(spans, col, i) {
            Some(t) => exists|k: int|
                i <= k < spans.len() && (#[trigger] spans[k]).0 <= col < spans[k].1 && spans[k].2 == t,
            None => forall|k: int| i <= k < spans.len() ==> !((#[trigger] spans[k]).0 <= col < spans[k].1),
        },
    decreases spans.len() - i,
{
    if i < spans.len() {
        if spans[i].0 <= col < spans[i].1 {
        } else {
            what_is_clicked_is_under_the_pointer(spans, col, i + 1);
        }
    }
}

/// The first of the rows from `i` on that is `row`.
pub open spec fn entry_at(rows: Seq<(u16, usize)>, row: u16, i: int) -> Option<usize>
    decreases rows.len() - i,
{
    if i < 0 || i >= rows.len() {
        None
    } else if rows[i].0 == row {
        Some(rows[i].1)
    } else {
        entry_at(rows, row, i + 1)
    }
}

fn find_entry(rows: &Vec<(u16, usize)>, row: u16) -> (r: Option<usize>)
    ensures
        r == entry_at(rows@, row, 0),
{
    let mut i: usize = 0;
    while i < rows.len()
        invariant
            i <= rows@.len(),
            entry_at(rows@, row, 0) == entry_at(rows@, row, i as int),
        decreases rows@.len() - i,
    {
        if rows[i].0 == row {
            return Some(rows[i].1);
        }
        i += 1;
    }
    None
}

/// The first of the keys from `i` on that is written under the pointer.
pub open spec fn written_at(hits: Seq<(u16, u16, u16, Key)>, col: u16, row: u16, i: int) -> Option<Key>
    decreases hits.len() - i,
{
    if i < 0 || i >= hits.len() {
        None
    } else if hits[i].0 == row && hits[i].1 <= col < hits[i].2 {
        Some(hits[i].3)
    } else {
        written_at(hits, col, row, i + 1)
    }
}

/// The first of the panes from `i` on under the pointer, and where in it that is.
pub open spec fn screen_at(rects: Seq<Rect>, col: u16, row: u16, i: int) -> Option<(usize, u16, u16)>
    decreases rects.len() - i,
{
    if i < 0 || i >= rects.len() {
        None
    } else if rects[i].holds(col as int, row as int) {
        Some((i as usize, (col - rects[i].x) as u16, (row - rects[i].y) as u16))
    } else {
        screen_at(rects, col, row, i + 1)
    }
}

impl Layout {
    /// A screen with nothing on it.
    pub fn new() -> (r: Layout)
        ensures
            r.header_row == 0,
            r.rows_start == 0,
            r.rows_end == 0,
            r.tab_row == 0,
            r.bottom_start == 0,
            r.column_spans@.len() == 0,
            r.tab_spans@.len() == 0,
            r.workspace_spans@.len() == 0,
            r.workspace_new is None,
            r.share_corner is None,
            r.modal_rect is None,
            r.launch_rows@.len() == 0,
            r.launch_cwd_rows@.len() == 0,
            r.menu_rows@.len() == 0,
            r.tool_sidebar is None,
            r.tool_log is None,
            r.key_hits@.len() == 0,
            r.pane_rects@.len() == 0,
    {
        Layout {
            header_row: 0,
            rows_start: 0,
            rows_end: 0,
            tab_row: 0,
            bottom_start: 0,
            column_spans: Vec::new(),
            tab_spans: Vec::new(),
            workspace_spans: Vec::new(),
            workspace_new: None,
            share_corner: None,
            modal_rect: None,
            launch_rows: Vec::new(),
            launch_cwd_rows: Vec::new(),
            menu_rows: Vec::new(),
            tool_sidebar: None,
            tool_log: None,
            key_hits: Vec::new(),
            pane_rects: Vec::new(),
        }
    }

    /// Whether a row is one of the bottom panel's.
    pub fn in_bottom_panel(&self, row: u16) -> (r: bool)
        ensures
            r == (row >= self.bottom_start),
    {
        row >= self.bottom_start
    }

    /// The row of the table under the pointer.
    pub fn row_at(&self, row: u16) -> (r: Option<usize>)
        ensures
            r == (if self.rows_start <= row < self.rows_end {
                Some((row - self.rows_start) as usize)
            } else {
                None
            }),
    {
        if row >= self.rows_start && row < self.rows_end {
            Some((row - self.rows_start) as usize)
        } else {
            None
        }
    }

    /// The column of the table whose header is under the pointer.
    pub fn header_column_at(&self, col: u16, row: u16) -> (r: Option<ColumnId>)
        ensures
            r == (if row == self.header_row {
                span_at(self.column_spans@, col, 0)
            } else {
                None
            }),
    {
        if row != self.header_row {
            return None;
        }
        find_span(&self.column_spans, col)
    }

    /// The key written under the pointer, if a click there means pressing one.
    pub fn key_at(&self, col: u16, row: u16) -> (r: Option<Key>)
        ensures
            r == written_at(self.key_hits@, col, row, 0),
    {
        let hits = &self.key_hits;
        let mut i: usize = 0;
        while i < hits.len()
            invariant
                i <= hits@.len(),
                hits == &self.key_hits,
                written_at(hits@, col, row, 0) == written_at(hits@, col, row, i as int),
            decreases hits@.len() - i,
        {
            if hits[i].0 == row && col >= hits[i].1 && col < hits[i].2 {
                return Some(hits[i].3);
            }
            i += 1;
        }
        None
    }

    /// The entry of the tool sidebar under the pointer.
    pub fn tool_sidebar_at(&self, col: u16, row: u16) -> (r: Option<usize>)
        requires
            self.tool_sidebar matches Some(s) ==> s.2 + s.3 <= usize::MAX,
        ensures
            r == (match self.tool_sidebar {
                Some((x_end, y, first, count)) => if col < x_end && row >= y && row - y < count {
                    Some((first + (row - y)) as usize)
                } else {
                    None
                },
                None => None,
            }),
    {
        match self.tool_sidebar {
            None => None,
            Some((x_end, y, first, count)) => {
                if col >= x_end || row < y {
                    return None;
                }
                let offset: usize = (row - y) as usize;
                if offset < count {
                    Some(first + offset)
                } else {
                    None
                }
            },
        }
    }

    /// The line of the tool log under the pointer, before scrolling.
    pub fn tool_log_row_at(&self, col: u16, row: u16) -> (r: Option<usize>)
        ensures
            r == (match self.tool_log {
                Some((x, y, height)) => if col >= x && y <= row < y + height {
                    Some((row - y) as usize)
                } else {
                    None
                },
                None => None,
            }),
    {
        match self.tool_log {
            None => None,
            Some((x, y, height)) => {
                if col < x || row < y || row - y >= height {
                    None
                } else {
                    Some((row - y) as usize)
                }
            },
        }
    }

    /// The bottom tab under the pointer.
    pub fn tab_at(&self, col: u16, row: u16) -> (r: Option<usize>)
        ensures
            r == (if row == self.tab_row {
                span_at(self.tab_spans@, col, 0)
            } else {
                None
            }),
    {
        if row != self.tab_row {
            return None;
        }
        find_span(&self.tab_spans, col)
    }

    /// The tab of the top bar under the pointer. The bar is always the top row.
    pub fn workspace_at(&self, col: u16, row: u16) -> (r: Option<usize>)
        ensures
            r == (if row == 0 {
                span_at(self.workspace_spans@, col, 0)
            } else {
                None
            }),
    {
        if row != 0 {
            return None;
        }
        find_span(&self.workspace_spans, col)
    }

    /// Whether the pointer is on the bar's new-tab button.
    pub fn workspace_new_at(&self, col: u16, row: u16) -> (r: bool)
        ensures
            r == (self.workspace_new matches Some((a, b)) && row == 0 && a <= col < b),
    {
        match self.workspace_new {
            Some((a, b)) => row == 0 && col >= a && col < b,
            None => false,
        }
    }

    /// Whether the pointer is on the footer's share corner.
    pub fn share_corner_at(&self, col: u16, row: u16) -> (r: bool)
        ensures
            r == (self.share_corner matches Some((y, a, b)) && row == y && a <= col < b),
    {
        match self.share_corner {
            Some((y, a, b)) => row == y && col >= a && col < b,
            None => false,
        }
    }

    /// Whether the pointer is in the modal that is up.
    pub open spec fn on_modal(&self, col: u16, row: u16) -> bool {
        self.modal_rect matches Some(r) && r.holds(col as int, row as int)
    }

    /// Whether the pointer is in the modal that is up, if one is.
    pub fn in_modal(&self, col: u16, row: u16) -> (r: bool)
        ensures
            r == self.on_modal(col, row),
    {
        match &self.modal_rect {
            Some(r) => r.contains(col, row),
            None => false,
        }
    }

    /// The directory that is offered under the pointer.
    pub fn launch_cwd_row_at(&self, col: u16, row: u16) -> (r: Option<usize>)
        ensures
            r == (if self.on_modal(col, row) {
                entry_at(self.launch_cwd_rows@, row, 0)
            } else {
                None
            }),
    {
        if self.in_modal(col, row) {
            find_entry(&self.launch_cwd_rows, row)
        } else {
            None
        }
    }

    /// The pane under the pointer, and where in its agent's screen that is.
    pub fn pane_at(&self, col: u16, row: u16) -> (r: Option<(usize, u16, u16)>)
        ensures
            r == screen_at(self.pane_rects@, col, row, 0),
    {
        let rects = &self.pane_rects;
        let mut i: usize = 0;
        while i < rects.len()
            invariant
                i <= rects@.len(),
                rects == &self.pane_rects,
                screen_at(rects@, col, row, 0) == screen_at(rects@, col, row, i as int),
            decreases rects@.len() - i,
        {
            let r = rects[i];
            if r.contains(col, row) {
                return Some((i, col - r.x, row - r.y));
            }
            i += 1;
        }
        None
    }

    /// The entry of the row menu under the pointer.
    pub fn menu_row_at(&self, col: u16, row: u16) -> (r: Option<usize>)
        ensures
            r == (if self.on_modal(col, row) {
                entry_at(self.menu_rows@, row, 0)
            } else {
                None
            }),
    {
        if self.in_modal(col, row) {
            find_entry(&self.menu_rows, row)
        } else {
            None
        }
    }

    /// The launcher's choice under the pointer.
    pub fn launch_row_at(&self, col: u16, row: u16) -> (r: Option<usize>)
        ensures
            r == (if self.on_modal(col, row) {
                entry_at(self.launch_rows@, row, 0)
            } else {
                None
            }),
    {
        if self.in_modal(col, row) {
            find_entry(&self.launch_rows, row)
        } else {
            None
        }
    }
}

/// The entry under the pointer is the first one of that row, and none is where none is
/// of it.
pub proof fn the_entry_of_a_row_is_found(rows: Seq<(u16, usize)>, row: u16, i: int)
    requires
        0 <= i <= rows.len(),
    ensures
        match entry_at(rows, row, i) {
            Some(e) => exists|k: int|
                i <= k < rows.len() && (#[trigger] rows[k]).0 == row && rows[k].1 == e && forall|j: int|
                    i <= j < k ==> (#[trigger] rows[j]).0 != row,
            None => forall|k: int| i <= k < rows.len() ==> (#[trigger] rows[k]).0 != row,
        },
    decreases rows.len() - i,
{
    if i < rows.len() && rows[i].0 != row {
        the_entry_of_a_row_is_found(rows, row, i + 1);
        if let Some(e) = entry_at(rows, row, i + 1) {
            let k = choose|k: int|
                i + 1 <= k < rows.len() && (#[trigger] rows[k]).0 == row && rows[k].1 == e && forall|j: int|
                    i + 1 <= j < k ==> (#[trigger] rows[j]).0 != row;
            assert(rows[k].0 == row && rows[k].1 == e);
            assert(forall|j: int| i <= j < k ==> (#[trigger] rows[j]).0 != row);
        }
    } else if i < rows.len() {
        assert(rows[i].0 == row);
    }
}

/// A key that is clicked is one that is written under the pointer, and where none is
/// written no key is meant.
pub proof fn a_key_is_clicked_where_it_is_written(hits: Seq<(u16, u16, u16, Key)>, col: u16, row: u16, i: int)
    requires
        0 <= i <= hits.len(),
    ensures
        match written_at(hits, col, row, i) {
            Some(key) => exists|k: int|
                i <= k < hits.len() && (#[trigger] hits[k]).0 == row && hits[k].1 <= col < hits[k].2 && hits[k].3 == key,
            None => forall|k: int| i <= k < hits.len() ==> !((#[trigger] hits[k]).0 == row && hits[k].1 <= col < hits[k].2),
        },
    decreases hits.len() - i,
{
    if i < hits.len() {
        if hits[i].0 == row && hits[i].1 <= col < hits[i].2 {
            assert(hits[i].3 == written_at(hits, col, row, i)->0);
        } else {
            a_key_is_clicked_where_it_is_written(hits, col, row, i + 1);
        }
    }
}

/// A click in a pane is on the cell of it that is drawn under the pointer.
pub proof fn a_pane_is_clicked_where_it_is_drawn(rects: Seq<Rect>, col: u16, row: u16, i: int)
    requires
        0 <= i <= rects.len() <= usize::MAX,
    ensures
        match screen_at(rects, col, row, i) {
            Some((k, x, y)) => i <= k < rects.len() && rects[k as int].holds(col as int, row as int) && rects[k as int].x + x
                == col && rects[k as int].y + y == row,
            None => forall|k: int| i <= k < rects.len() ==> !(#[trigger] rects[k]).holds(col as int, row as int),
        },
    decreases rects.len() - i,
{
    if i < rects.len() && !rects[i].holds(col as int, row as int) {
        a_pane_is_clicked_where_it_is_drawn(rects, col, row, i + 1);
    }
}

} // verus!
