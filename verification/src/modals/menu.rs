//! The menu of everything that can be done to a row.

use vstd::prelude::*;

use crate::app::App;
use crate::bar::column;
use crate::geometry::Rect;
use crate::styled::{blank, line_of, nothing, Ink, Line, LineView, Text};
use crate::text::{between, cat, chars_of, count, cut, left_in, pad_left, pad_right, repeat, right_in, string_between, times, truncate};

verus! {

/// The most of a refusal the menu shows before it is cut.
pub const MAX_REASON: usize = 34;

/// An entry of the menu.
pub struct Item {
    pub label: String,
    /// The key that does it.
    pub key: String,
    /// Why it cannot be done.
    pub blocked: Option<String>,
    /// Whether a rule is drawn over it.
    pub rule: bool,
}

impl Item {
    /// Whether it can be done.
    pub fn enabled(&self) -> (r: bool)
        ensures
            r == (self.blocked is None),
    {
        self.blocked.is_none()
    }
}

/// The last `width` characters of a text, cut at the front: for a field that is
/// being typed into, the end is the part that moves.
pub open spec fn tail_text(s: Seq<char>, width: int) -> Seq<char> {
    if s.len() <= width {
        s
    } else {
        "…"@ + s.skip(
            s.len() - (if width < 1 {
                0
            } else {
                width - 1
            }),
        )
    }
}

/// The last `width` characters of a text, cut at the front.
pub fn tail(s: &str, width: usize) -> (r: String)
    ensures
        r@ == tail_text(s@, width as int),
{
    let v = chars_of(s);
    let n: usize = v.len();
    if n <= width {
        return s.to_owned();
    }
    let keep: usize = width.saturating_sub(1);
    let end = string_between(&v, n - keep, n);
    assert(end@ =~= s@.skip(n - keep));
    cat("…", end.as_str())
}

/// A tail has its width, and ends as the text does.
pub proof fn a_tail_ends_as_the_text_does(s: Seq<char>, width: int)
    requires
        1 <= width,
    ensures
        tail_text(s, width).len() <= width,
        s.len() > 0 && width > 1 ==> tail_text(s, width).last() == s.last(),
{
    reveal_strlit("…");
}

/// What stands at the right of an entry: its key, or why there is no point in
/// pressing it. Never both, since the key of a refused entry only repeats the
/// refusal.
pub open spec fn trailing_text(item: Item) -> Seq<char> {
    match item.blocked {
        Some(why) => why@,
        None => item.key@,
    }
}

/// What stands at the right of an entry.
pub fn trailing(item: &Item) -> (r: String)
    ensures
        r@ == trailing_text(*item),
{
    match &item.blocked {
        Some(why) => why.clone(),
        None => item.key.clone(),
    }
}

/// The larger of two.
pub open spec fn larger(a: int, b: int) -> int {
    if a < b {
        b
    } else {
        a
    }
}

/// The widest of the first `n` labels.
pub open spec fn label_width(items: Seq<Item>, n: int) -> int
    decreases n,
{
    if n <= 0 {
        0
    } else {
        larger(label_width(items, n - 1), items[n - 1].label@.len() as int)
    }
}

/// The widest of what stands at the right of the first `n`, as far as it is shown.
pub open spec fn right_width(items: Seq<Item>, n: int) -> int
    decreases n,
{
    if n <= 0 {
        0
    } else {
        let w = trailing_text(items[n - 1]).len() as int;
        larger(
            right_width(items, n - 1),
            if w < MAX_REASON {
                w
            } else {
                MAX_REASON as int
            },
        )
    }
}

/// The columns of the menu: what its widest entry takes up, within bounds, so that
/// one long refusal cannot stretch it across the screen.
pub open spec fn menu_width(items: Seq<Item>) -> int {
    let w = label_width(items, items.len() as int) + right_width(items, items.len() as int) + 6;
    if w < 30 {
        30
    } else if w > 76 {
        76
    } else {
        w
    }
}

/// The lines of the first `n` entries.
pub open spec fn menu_lines(items: Seq<Item>, cursor: usize, labels: int, rights: int, width: int, n: int) -> Seq<LineView>
    decreases n,
{
    if n <= 0 {
        nothing()
    } else {
        let item = items[n - 1];
        let before = menu_lines(items, cursor, labels, rights, width, n - 1);
        let before = if item.rule {
            before.push(blank().with(" "@ + times('─', width - 4) + " "@, Ink::Dim))
        } else {
            before
        };
        before.push(
            blank().with(
                " "@ + left_in(item.label@, labels) + "  "@,
                if item.blocked is Some {
                    Ink::Dim
                } else if n - 1 == cursor {
                    Ink::Selected
                } else {
                    Ink::Plain
                },
            ).with(right_in(cut(trailing_text(item), MAX_REASON as int), rights) + " "@, Ink::Dim),
        )
    }
}

/// The line each of the first `n` entries is on.
pub open spec fn entry_line(items: Seq<Item>, n: int) -> int
    decreases n + 1,
{
    if n < 0 {
        -1
    } else {
        entry_line(items, n - 1) + (if items[n].rule {
            2int
        } else {
            1int
        })
    }
}

/// The menu: its columns, its lines, and the line of each entry.
pub struct Menu {
    pub width: u16,
    pub text: Text,
    pub lines: Vec<usize>,
}

fn widest(items: &Vec<Item>) -> (r: (usize, usize))
    ensures
        r.0 == label_width(items@, items@.len() as int),
        r.1 == right_width(items@, items@.len() as int),
{
    let mut labels: usize = 0;
    let mut rights: usize = 0;
    let mut i: usize = 0;
    while i < items.len()
        invariant
            i <= items@.len(),
            labels == label_width(items@, i as int),
            rights == right_width(items@, i as int),
        decreases items@.len() - i,
    {
        let w: usize = count(items[i].label.as_str());
        if labels < w {
            labels = w;
        }
        let t: usize = count(trailing(&items[i]).as_str());
        let t: usize = if t < MAX_REASON {
            t
        } else {
            MAX_REASON
        };
        if rights < t {
            rights = t;
        }
        i += 1;
    }
    (labels, rights)
}

proof fn rights_are_short(items: Seq<Item>, n: int)
    ensures
        0 <= right_width(items, n) <= MAX_REASON,
        0 <= label_width(items, n),
    decreases n,
{
    if n > 0 {
        rights_are_short(items, n - 1);
    }
}

/// The menu of a row, or `None` where there is nothing to do.
pub fn row_menu(items: &Vec<Item>, cursor: usize) -> (r: Option<Menu>)
    requires
        items@.len() <= usize::MAX / 2,
    ensures
        match r {
            Some(m) => {
                let n = items@.len() as int;
                &&& n > 0
                &&& m.width == menu_width(items@)
                &&& m.text@ == menu_lines(
                    items@,
                    cursor,
                    label_width(items@, n),
                    right_width(items@, n),
                    m.width as int,
                    n,
                )
                &&& m.lines@.len() == n
                &&& forall|i: int| 0 <= i < n ==> (#[trigger] m.lines@[i]) == entry_line(items@, i)
            },
            None => items@.len() == 0,
        },
{
    let n: usize = items.len();
    if n == 0 {
        return None;
    }
    let (labels, rights) = widest(items);
    proof {
        rights_are_short(items@, n as int);
    }
    let width: u16 = if labels > 70 {
        76
    } else {
        let w: usize = labels + rights + 6;
        if w < 30 {
            30
        } else if w > 76 {
            76
        } else {
            w as u16
        }
    };
    let mut text = Text::new();
    let mut lines: Vec<usize> = Vec::new();
    let mut next: usize = 0;
    let mut i: usize = 0;
    while i < n
        invariant
            i <= n,
            n == items@.len(),
            n <= usize::MAX / 2,
            30 <= width <= 76,
            next == entry_line(items@, i - 1) + 1,
            next <= 2 * i,
            text@ == menu_lines(items@, cursor, labels as int, rights as int, width as int, i as int),
            lines@.len() == i,
            forall|k: int| 0 <= k < i ==> (#[trigger] lines@[k]) == entry_line(items@, k),
        decreases n - i,
    {
        let item = &items[i];
        if item.rule {
            let mut s = cat(" ", repeat('─', (width - 4) as usize).as_str());
            s.append(" ");
            text.push(line_of(s.as_str(), Ink::Dim));
            next += 1;
        }
        let ink = if !item.enabled() {
            Ink::Dim
        } else if i == cursor {
            Ink::Selected
        } else {
            Ink::Plain
        };
        let mut l = Line::new();
        let mut s = cat(" ", pad_right(item.label.as_str(), labels).as_str());
        s.append("  ");
        l.put(s.as_str(), ink);
        let mut s = pad_left(truncate(trailing(item).as_str(), MAX_REASON).as_str(), rights);
        s.append(" ");
        l.put(s.as_str(), Ink::Dim);
        text.push(l);
        lines.push(next);
        next += 1;
        i += 1;
    }
    Some(Menu { width, text, lines })
}

/// The row of each entry of a menu drawn in `inner`.
pub fn menu_rows(lines: &Vec<usize>, inner: Rect) -> (r: Vec<(u16, usize)>)
    ensures
        r@ == Seq::new(lines@.len(), |i: int| (column(inner.y + lines@[i]), i as usize)),
{
    let mut rows: Vec<(u16, usize)> = Vec::new();
    let mut i: usize = 0;
    while i < lines.len()
        invariant
            i <= lines@.len(),
            rows@ == Seq::new(i as nat, |k: int| (column(inner.y + lines@[k]), k as usize)),
        decreases lines@.len() - i,
    {
        let y: u16 = if lines[i] > (u16::MAX - inner.y) as usize {
            u16::MAX
        } else {
            inner.y + lines[i] as u16
        };
        rows.push((y, i));
        assert(rows@ =~= Seq::new((i + 1) as nat, |k: int| (column(inner.y + lines@[k]), k as usize)));
        i += 1;
    }
    rows
}

/// Every entry has a line of its own, in the order of the entries.
pub proof fn every_entry_has_its_line(items: Seq<Item>, i: int, j: int)
    requires
        0 <= i < j < items.len(),
    ensures
        0 <= entry_line(items, i) < entry_line(items, j),
    decreases j,
{
    lines_are_counted(items, i);
    if i + 1 < j {
        every_entry_has_its_line(items, i, j - 1);
    }
}

proof fn lines_are_counted(items: Seq<Item>, i: int)
    requires
        -1 <= i < items.len(),
    ensures
        entry_line(items, i) >= i,
    decreases i + 1,
{
    if i >= 0 {
        lines_are_counted(items, i - 1);
    }
}

impl App {
    /// The row a menu `width` columns wide is about, for its border.
    pub fn menu_title(&self, width: u16) -> (r: String)
        ensures
            r@ == " "@ + (match self.session_at() {
                Some(s) => cut(
                    s.label(),
                    if width < 4 {
                        0
                    } else {
                        width - 4
                    },
                ),
                None => ""@,
            }) + " "@,
    {
        match self.selected_session() {
            Some(s) => {
                let subject = truncate(s.display_label(), width.saturating_sub(4) as usize);
                between(" ", subject.as_str(), " ")
            },
            None => between(" ", "", " "),
        }
    }
}

proof fn an_entry_keeps_its_line(items: Seq<Item>, cursor: usize, labels: int, rights: int, width: int, n: int, i: int)
    requires
        0 <= i < n <= items.len(),
    ensures
        ({
            let lines = menu_lines(items, cursor, labels, rights, width, n);
            let line = lines[entry_line(items, i)];
            &&& lines.len() == entry_line(items, n - 1) + 1
            &&& 0 <= entry_line(items, i) < lines.len()
            &&& line.spans[0].text == " "@ + left_in(items[i].label@, labels) + "  "@
            &&& line.spans[1].text == right_in(cut(trailing_text(items[i]), MAX_REASON as int), rights) + " "@
            &&& items[i].blocked is Some ==> line.spans[0].ink == Ink::Dim
            &&& items[i].blocked is None && i == cursor ==> line.spans[0].ink == Ink::Selected
            &&& items[i].blocked is None && i != cursor ==> line.spans[0].ink == Ink::Plain
        }),
    decreases n,
{
    assert(menu_lines(items, cursor, labels, rights, width, 0).len() == 0);
    assert(entry_line(items, -1) == -1);
    if n > 1 {
        an_entry_keeps_its_line(items, cursor, labels, rights, width, n - 1, if i < n - 1 {
            i
        } else {
            0
        });
    }
}

/// Every entry of a menu is on its line with its own label, and beside it its own key,
/// or why it cannot be had where it cannot.
pub proof fn an_entry_is_beside_its_key(items: Seq<Item>, cursor: usize, labels: int, rights: int, width: int, i: int)
    requires
        0 <= i < items.len(),
    ensures
        ({
            let line = menu_lines(items, cursor, labels, rights, width, items.len() as int)[entry_line(items, i)];
            &&& line.spans[0].text == " "@ + left_in(items[i].label@, labels) + "  "@
            &&& items[i].blocked is None ==> line.spans[1].text == right_in(cut(items[i].key@, MAX_REASON as int), rights)
                + " "@
            &&& items[i].blocked matches Some(why) ==> line.spans[1].text == right_in(cut(why@, MAX_REASON as int), rights)
                + " "@ && line.spans[0].ink == Ink::Dim
            &&& items[i].blocked is None && i == cursor ==> line.spans[0].ink == Ink::Selected
        }),
{
    an_entry_keeps_its_line(items, cursor, labels, rights, width, items.len() as int, i);
}

/// The widest of the labels is one of them, and none is wider.
pub proof fn the_widest_label_is_one_of_them(items: Seq<Item>, n: int, i: int)
    requires
        0 <= n <= items.len(),
    ensures
        0 <= i < n ==> items[i].label@.len() <= label_width(items, n),
        n > 0 ==> exists|k: int| 0 <= k < n && (#[trigger] items[k]).label@.len() == label_width(items, n),
        label_width(items, n) >= 0,
    decreases n,
{
    if n > 0 {
        the_widest_label_is_one_of_them(items, n - 1, i);
        if label_width(items, n) == items[n - 1].label@.len() {
            assert(items[n - 1].label@.len() == label_width(items, n));
        }
        if n == 1 {
            assert(label_width(items, 0) == 0);
            assert(items[0].label@.len() == label_width(items, 1));
        }
    }
}

} // verus!
