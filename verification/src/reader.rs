//! The conversation reader: a session's transcript over the whole screen.
//!
//! A conversation is laid out once for each width, not once for each frame. Each
//! turn becomes a block that is kept, and a frame shows only the rows it has room
//! for. Rows are counted from the end, so that turns arriving above do not move
//! what is being read.

use vstd::prelude::*;

use crate::app::{App, Mode};
use crate::figures::{age_text, relative_age};
use crate::geometry::Rect;
use crate::keyboard::{Key, KeyCode};
use crate::model::Session;
use crate::panels::log::flows;
use crate::share::{frame_at, spinner_frame};
use crate::styled::{blank, line_of, Ink, Line, LineView};
use crate::text::{cat, count, dec, decimal, join, joined, words};
use crate::transcript::{
    found_from, links_view, lower, lower_text, matches_in, note_block, note_of, places, turn_block, turn_of, drawn_for, Block,
    BlockView, Conversation, Drawn, Link, LinkView, Turn,
};

verus! {

/// The widest the text runs, however wide the terminal. Prose beyond that is read
/// by moving the head, not the eyes.
pub const MAX_TEXT: usize = 120;

/// Rows a notch of the wheel scrolls.
pub const WHEEL: u128 = 3;

/// A conversation laid out to one width.
pub struct Laid {
    pub width: usize,
    pub raw: bool,
    pub blocks: Vec<Block>,
    /// The row each block starts on.
    pub starts: Vec<u128>,
    pub total: u128,
}

/// What the blocks say.
pub open spec fn blocks_view(v: Seq<Block>) -> Seq<BlockView> {
    v.map_values(|b: Block| b@)
}

/// How many rows the first `n` blocks have.
pub open spec fn rows_before(b: Seq<BlockView>, n: int) -> nat
    decreases n,
{
    if n <= 0 {
        0
    } else {
        rows_before(b, n - 1) + b[n - 1].lines.len()
    }
}

/// The last of the first `n` starts that is not behind `row`, and the first where
/// there is none.
pub open spec fn last_start(starts: Seq<u128>, row: int, n: int) -> int
    decreases n,
{
    if n <= 1 {
        0
    } else if starts[n - 1] <= row {
        n - 1
    } else {
        last_start(starts, row, n - 1)
    }
}

/// The rows of one block that `query` stands on, of its first `n`.
pub open spec fn block_hits(b: BlockView, start: int, query: Seq<char>, n: int) -> Seq<int>
    decreases n,
{
    if n <= 0 {
        Seq::empty()
    } else {
        let before = block_hits(b, start, query, n - 1);
        if found_from(b.plain[n - 1], query, 0).len() > 0 {
            before.push(start + n - 1)
        } else {
            before
        }
    }
}

/// The rows of the first `n` blocks that `query` stands on.
pub open spec fn hits_in(b: Seq<BlockView>, query: Seq<char>, n: int) -> Seq<int>
    decreases n,
{
    if n <= 0 {
        Seq::empty()
    } else {
        hits_in(b, query, n - 1) + block_hits(
            b[n - 1],
            rows_before(b, n - 1) as int,
            query,
            b[n - 1].plain.len() as int,
        )
    }
}

/// Rows, as numbers.
pub open spec fn row_numbers(v: Seq<u128>) -> Seq<int> {
    v.map_values(|r: u128| r as int)
}

impl Laid {
    /// Each block starts where the one before ends, and each row has its plain
    /// text.
    pub open spec fn wf(&self) -> bool {
        let b = blocks_view(self.blocks@);
        &&& self.starts@.len() == self.blocks@.len()
        &&& forall|i: int| 0 <= i < self.starts@.len() ==> #[trigger] self.starts@[i] == rows_before(b, i)
        &&& self.total == rows_before(b, b.len() as int)
        &&& forall|i: int| 0 <= i < b.len() ==> (#[trigger] b[i]).plain.len() == b[i].lines.len()
    }

    /// The block a row falls in.
    pub open spec fn block_of(&self, row: int) -> int {
        last_start(self.starts@, row, self.starts@.len() as int)
    }

    /// The block row `row` falls in.
    pub fn block_at(&self, row: u128) -> (r: usize)
        ensures
            r == self.block_of(row as int),
            self.starts@.len() > 0 ==> r < self.starts@.len(),
    {
        let mut n: usize = self.starts.len();
        while n > 1 && self.starts[n - 1] > row
            invariant
                n <= self.starts@.len(),
                self.starts@.len() > 0 ==> n > 0,
                self.block_of(row as int) == last_start(self.starts@, row as int, n as int),
            decreases n,
        {
            n -= 1;
        }
        if n == 0 {
            0
        } else {
            n - 1
        }
    }

    /// The block and the row in it that row `row` is, where there is such a row.
    pub fn row(&self, row: u128) -> (r: Option<(usize, usize)>)
        requires
            self.wf(),
        ensures
            match r {
                Some((b, at)) => row < self.total && b == self.block_of(row as int) && b < self.blocks@.len() && at
                    < self.blocks@[b as int]@.lines.len() && at < self.blocks@[b as int]@.plain.len()
                    && self.starts@[b as int] + at == row,
                None => row >= self.total,
            },
    {
        let b: usize = self.block_at(row);
        if b >= self.blocks.len() {
            return None;
        }
        proof {
            a_row_is_in_its_block(*self, row as int);
            assert(blocks_view(self.blocks@)[b as int] == self.blocks@[b as int]@);
        }
        let start: u128 = self.starts[b];
        let n: usize = self.blocks[b].lines.len();
        if row >= self.total {
            return None;
        }
        Some((b, (row - start) as usize))
    }

    /// Every row the lower-case `query` stands on.
    pub fn find(&self, query: &Vec<char>) -> (r: Vec<u128>)
        requires
            self.wf(),
        ensures
            row_numbers(r@) == hits_in(blocks_view(self.blocks@), query@, self.blocks@.len() as int),
    {
        let ghost bv = blocks_view(self.blocks@);
        let mut hits: Vec<u128> = Vec::new();
        let mut i: usize = 0;
        assert(row_numbers(hits@) =~= Seq::<int>::empty());
        while i < self.blocks.len()
            invariant
                i <= self.blocks@.len(),
                self.wf(),
                bv == blocks_view(self.blocks@),
                row_numbers(hits@) == hits_in(bv, query@, i as int),
            decreases self.blocks@.len() - i,
        {
            let b = &self.blocks[i];
            let start: u128 = self.starts[i];
            let ghost before = row_numbers(hits@);
            proof {
                assert(bv[i as int] == b@);
                assert(start == rows_before(bv, i as int));
                rows_grow(bv, i + 1, bv.len() as int);
                assert(start + b@.plain.len() <= self.total);
            }
            let mut k: usize = 0;
            assert(before + block_hits(b@, start as int, query@, 0) =~= before);
            while k < b.plain.len()
                invariant
                    k <= b.plain@.len(),
                    start + b.plain@.len() <= u128::MAX,
                    row_numbers(hits@) == before + block_hits(b@, start as int, query@, k as int),
                decreases b.plain@.len() - k,
            {
                let found = matches_in(&b.plain[k], query);
                assert(b@.plain[k as int] == b.plain@[k as int]@);
                assert(places(found@).len() == found@.len());
                if found.len() > 0 {
                    let ghost was = hits@;
                    hits.push(start + k as u128);
                    assert(row_numbers(hits@) =~= row_numbers(was).push(start + k));
                    assert(row_numbers(hits@) =~= before + block_hits(b@, start as int, query@, k + 1));
                }
                k += 1;
            }
            i += 1;
        }
        hits
    }
}

proof fn rows_grow(b: Seq<BlockView>, m: int, n: int)
    requires
        0 <= m <= n <= b.len(),
    ensures
        rows_before(b, m) <= rows_before(b, n),
    decreases n,
{
    if m < n {
        rows_grow(b, m, n - 1);
    }
}

proof fn last_start_is_last(starts: Seq<u128>, row: int, n: int)
    requires
        0 < n <= starts.len(),
        starts[0] <= row,
    ensures
        0 <= last_start(starts, row, n) < n,
        starts[last_start(starts, row, n)] <= row,
        last_start(starts, row, n) + 1 < n ==> starts[last_start(starts, row, n) + 1] > row,
    decreases n,
{
    if n > 1 && starts[n - 1] > row {
        last_start_is_last(starts, row, n - 1);
    }
}

/// A row of a layout is in the block it is found in.
pub proof fn a_row_is_in_its_block(laid: Laid, row: int)
    requires
        laid.wf(),
        0 <= row,
        laid.blocks@.len() > 0,
    ensures
        0 <= laid.block_of(row) < laid.blocks@.len(),
        laid.starts@[laid.block_of(row)] <= row,
        row < laid.total ==> row < laid.starts@[laid.block_of(row)] + laid.blocks@[laid.block_of(row)]@.lines.len(),
{
    let b = blocks_view(laid.blocks@);
    assert(laid.starts@[0] == rows_before(b, 0));
    last_start_is_last(laid.starts@, row, laid.starts@.len() as int);
    let i = laid.block_of(row);
    assert(b[i] == laid.blocks@[i]@);
    assert(rows_before(b, i + 1) == rows_before(b, i) + b[i].lines.len());
    assert(laid.starts@[i] == rows_before(b, i));
    if i + 1 < laid.starts@.len() {
        assert(laid.starts@[i + 1] == rows_before(b, i + 1));
    }
}

/// A search of a conversation, and what it found.
pub struct Search {
    pub query: String,
    /// The query is still being typed: keys go to it.
    pub typing: bool,
    /// Rows the query is on, top to bottom.
    pub hits: Vec<u128>,
    /// The hit last landed on.
    pub current: Option<usize>,
    /// Where the view stood when the search began.
    pub origin: u128,
}

impl Search {
    /// No search.
    pub open spec fn is_none(&self) -> bool {
        &&& self.query@.len() == 0
        &&& !self.typing
        &&& self.hits@.len() == 0
        &&& self.current is None
        &&& self.origin == 0
    }

    /// No search.
    pub fn none() -> (r: Search)
        ensures
            r.is_none(),
    {
        Search { query: String::new(), typing: false, hits: Vec::new(), current: None, origin: 0 }
    }
}

/// The first of `hits` from `i` on that is not above `from`.
pub open spec fn hit_from(hits: Seq<u128>, from: int, i: int) -> Option<int>
    decreases hits.len() - i,
{
    if i >= hits.len() || i < 0 {
        None
    } else if hits[i] >= from {
        Some(i)
    } else {
        hit_from(hits, from, i + 1)
    }
}

/// The hit a search lands on: the first that is not above `from`, and the first
/// of all where there is none.
pub open spec fn landed_on(hits: Seq<u128>, from: int) -> Option<int> {
    match hit_from(hits, from, 0) {
        Some(i) => Some(i),
        None => if hits.len() > 0 {
            Some(0int)
        } else {
            None
        },
    }
}

/// What a key asks for beyond the view.
#[derive(Debug, Clone, Copy, PartialEq, Eq, Structural)]
pub enum Asked {
    Nothing,
    /// Close the reader.
    Close,
    /// Fetch the turns before this one.
    Earlier(usize),
}

/// A conversation being read.
pub struct ChatView {
    pub session: Session,
    /// The machine it is read off, where that is another one.
    pub host: Option<String>,
    pub conversation: Option<Conversation>,
    pub error: Option<String>,
    /// Whether earlier turns are on their way.
    pub fetching: bool,
    /// How many rows the screen shows.
    pub visible: usize,
    /// How many rows the view is away from the end.
    pub back: u128,
    /// Whether tool calls are drawn in full.
    pub tools_open: bool,
    /// The turns whose tool calls are drawn the other way.
    pub opened: Vec<usize>,
    /// Whether replies are shown as they were written.
    pub raw: bool,
    pub laid: Option<Laid>,
    pub dirty: bool,
    /// Whether the row at the top stays there when it is laid out again.
    pub hold: bool,
    pub search: Search,
}

/// What is left of `a` without `b`.
pub open spec fn less(a: int, b: int) -> int {
    if a > b {
        a - b
    } else {
        0
    }
}

impl ChatView {
    /// Whether what is laid out is laid out well.
    pub open spec fn wf(&self) -> bool {
        self.laid matches Some(l) ==> l.wf()
    }

    /// How many rows there are.
    pub open spec fn rows(&self) -> int {
        match self.laid {
            Some(l) => l.total as int,
            None => 0,
        }
    }

    /// The furthest down the view can begin.
    pub open spec fn lowest(&self) -> int {
        less(self.rows(), self.visible as int)
    }

    /// The row at the top of the view.
    pub open spec fn first(&self) -> int {
        less(self.lowest(), self.back as int)
    }

    /// The view with row `row` at its top, or as far down as it can begin.
    pub open spec fn topped(&self, row: int) -> ChatView {
        ChatView {
            back: less(
                self.lowest(),
                if row < self.lowest() {
                    row
                } else {
                    self.lowest()
                },
            ) as u128,
            ..*self
        }
    }

    /// The view with row `row` a third of the way down.
    pub open spec fn showing(&self, row: int) -> ChatView {
        self.topped(less(row, self.visible as int / 3))
    }

    /// The view moved up.
    pub open spec fn up(&self, rows: int) -> ChatView {
        ChatView {
            back: (if self.back + rows < self.lowest() {
                self.back + rows
            } else {
                self.lowest()
            }) as u128,
            ..*self
        }
    }

    /// The view moved down.
    pub open spec fn down(&self, rows: int) -> ChatView {
        ChatView { back: less(self.back as int, rows) as u128, ..*self }
    }

    /// How many rows there are.
    pub fn laid_total(&self) -> (r: u128)
        ensures
            r == self.rows(),
    {
        match &self.laid {
            Some(l) => l.total,
            None => 0,
        }
    }

    /// The furthest down the view can begin.
    pub fn max_top(&self) -> (r: u128)
        ensures
            r == self.lowest(),
    {
        self.laid_total().saturating_sub(self.visible as u128)
    }

    /// The row at the top of the view.
    pub fn top(&self) -> (r: u128)
        ensures
            r == self.first(),
    {
        self.max_top().saturating_sub(self.back)
    }

    fn set_top(&mut self, top: u128)
        ensures
            *final(self) == old(self).topped(top as int),
    {
        let most: u128 = self.max_top();
        self.back = if top < most {
            most - top
        } else {
            0
        };
    }

    /// Put `row` a third of the way down, where it reads with some of what led to
    /// it above.
    fn show_row(&mut self, row: u128)
        ensures
            *final(self) == old(self).showing(row as int),
    {
        self.set_top(row.saturating_sub((self.visible / 3) as u128));
    }

    /// Scroll towards the start.
    pub fn scroll_up(&mut self, rows: u128)
        ensures
            *final(self) == old(self).up(rows as int),
    {
        let most: u128 = self.max_top();
        let back: u128 = self.back.saturating_add(rows);
        self.back = if back < most {
            back
        } else {
            most
        };
    }

    /// Scroll towards the end.
    pub fn scroll_down(&mut self, rows: u128)
        ensures
            *final(self) == old(self).down(rows as int),
    {
        self.back = self.back.saturating_sub(rows);
    }

    /// Whether a turn's tool calls are drawn in full.
    pub open spec fn opens(&self, seq: usize) -> bool {
        self.tools_open != self.opened@.contains(seq)
    }

    /// Whether a turn's tool calls are drawn in full: there is a default for all
    /// of them, and each turn can be flipped against it.
    pub fn is_open(&self, seq: usize) -> (r: bool)
        ensures
            r == self.opens(seq),
    {
        let mut i: usize = 0;
        while i < self.opened.len()
            invariant
                i <= self.opened@.len(),
                forall|j: int| 0 <= j < i ==> self.opened@[j] != seq,
            decreases self.opened@.len() - i,
        {
            if self.opened[i] == seq {
                return !self.tools_open;
            }
            i += 1;
        }
        self.tools_open
    }

    /// The first block from `b` on that has tools, above row `bottom`.
    pub open spec fn tools_from(laid: Laid, b: int, bottom: int) -> Option<int>
        decreases laid.blocks@.len() - b,
    {
        if b < 0 || b >= laid.blocks@.len() || laid.starts@[b] >= bottom {
            None
        } else if laid.blocks@[b].has_tools {
            Some(b)
        } else {
            ChatView::tools_from(laid, b + 1, bottom)
        }
    }

    /// The turn whose tools are to be opened.
    pub open spec fn readable(&self) -> Option<usize> {
        match self.laid {
            None => None,
            Some(laid) => match ChatView::tools_from(laid, laid.block_of(self.first()), self.first() + self.visible) {
                Some(b) => laid.blocks@[b].seq,
                None => None,
            },
        }
    }

    /// The turn whose tools Enter opens: the first on screen that has any.
    pub fn turn_to_open(&self) -> (r: Option<usize>)
        requires
            self.wf(),
        ensures
            r == self.readable(),
    {
        let laid = match &self.laid {
            None => {
                return None;
            },
            Some(l) => l,
        };
        let top: u128 = self.top();
        let mut b: usize = laid.block_at(top);
        while b < laid.blocks.len() && (laid.starts[b] < top || laid.starts[b] - top < self.visible as u128)
            invariant
                laid.wf(),
                self.laid == Some(*laid),
                top == self.first(),
                ChatView::tools_from(*laid, laid.block_of(self.first()), self.first() + self.visible)
                    == ChatView::tools_from(*laid, b as int, self.first() + self.visible),
            decreases laid.blocks@.len() - b,
        {
            if laid.blocks[b].has_tools {
                return laid.blocks[b].seq;
            }
            b += 1;
        }
        None
    }

    /// The rows the query stands on.
    pub open spec fn hits_for(&self, query: Seq<char>) -> Seq<int> {
        match self.laid {
            Some(l) => if lower_text(query).len() == 0 {
                Seq::empty()
            } else {
                hits_in(blocks_view(l.blocks@), lower_text(query), l.blocks@.len() as int)
            },
            None => Seq::empty(),
        }
    }

    fn found(&self) -> (r: Vec<u128>)
        requires
            self.wf(),
        ensures
            row_numbers(r@) == self.hits_for(self.search.query@),
    {
        let query = lower(self.search.query.as_str());
        let none: Vec<u128> = Vec::new();
        assert(row_numbers(none@) =~= Seq::<int>::empty());
        match &self.laid {
            Some(l) => {
                if query.len() == 0 {
                    none
                } else {
                    l.find(&query)
                }
            },
            None => none,
        }
    }

    /// What searching from row `from` on makes of a view.
    pub open spec fn searched(&self, from: int, after: ChatView) -> bool {
        let hits = after.search.hits@;
        let landed = ChatView {
            search: Search {
                hits: after.search.hits,
                current: match landed_on(hits, from) {
                    Some(i) => Some(i as usize),
                    None => None,
                },
                ..self.search
            },
            ..*self
        };
        &&& row_numbers(hits) == self.hits_for(self.search.query@)
        &&& match landed_on(hits, from) {
            Some(i) => after == landed.showing(hits[i] as int),
            None => after == landed,
        }
    }

    /// Find the query's rows, and move the view to the first that is not above
    /// `from`.
    fn search_from(&mut self, from: u128)
        requires
            old(self).wf(),
        ensures
            old(self).searched(from as int, *final(self)),
    {
        let hits = self.found();
        let mut i: usize = 0;
        while i < hits.len() && hits[i] < from
            invariant
                i <= hits@.len(),
                hit_from(hits@, from as int, 0) == hit_from(hits@, from as int, i as int),
            decreases hits@.len() - i,
        {
            i += 1;
        }
        let current: Option<usize> = if i < hits.len() {
            Some(i)
        } else if hits.len() > 0 {
            Some(0)
        } else {
            None
        };
        self.search.hits = hits;
        self.search.current = current;
        match current {
            Some(at) => {
                let row: u128 = self.search.hits[at];
                self.show_row(row);
            },
            None => {},
        }
    }

    /// The hit a step lands on.
    pub open spec fn next_hit(&self, forward: bool) -> int {
        let n = self.search.hits@.len() as int;
        match self.search.current {
            Some(i) => if forward {
                (i + 1) % n
            } else {
                (i + n - 1) % n
            },
            None => 0,
        }
    }

    /// What a step through the hits makes of a view.
    pub open spec fn stepped(&self, forward: bool) -> ChatView {
        if self.search.hits@.len() == 0 {
            *self
        } else {
            let i = self.next_hit(forward);
            (ChatView { search: Search { current: Some(i as usize), ..self.search }, ..*self }).showing(
                self.search.hits@[i] as int,
            )
        }
    }

    /// Go to the next hit, or the one before, wrapping at the ends.
    pub fn step_hit(&mut self, forward: bool)
        ensures
            *final(self) == old(self).stepped(forward),
    {
        let n: usize = self.search.hits.len();
        if n == 0 {
            return;
        }
        let i: usize = match self.search.current {
            Some(i) => {
                let k: u128 = if forward {
                    i as u128 + 1
                } else {
                    i as u128 + n as u128 - 1
                };
                (k % n as u128) as usize
            },
            None => 0,
        };
        self.search.current = Some(i);
        let row: u128 = self.search.hits[i];
        self.show_row(row);
    }

    fn clear_search(&mut self)
        ensures
            final(self).search.is_none(),
            *final(self) == (ChatView { search: final(self).search, ..*old(self) }),
    {
        self.search = Search::none();
    }

    /// The view waiting to be laid out again.
    pub open spec fn stale(&self) -> ChatView {
        ChatView { dirty: true, hold: true, ..*self }
    }

    /// Lay the conversation out again before the next frame. `hold` keeps the row
    /// at the top where it is even at the end.
    pub fn relayout(&mut self, hold: bool)
        ensures
            *final(self) == (ChatView { dirty: true, hold: old(self).hold || hold, ..*old(self) }),
    {
        self.dirty = true;
        self.hold = self.hold || hold;
    }

    /// What a key typed into a search makes of a view.
    pub open spec fn typed(&self, key: Key, after: ChatView) -> bool {
        let query = self.search.query@;
        match key.code {
            KeyCode::Esc => {
                &&& after.search.is_none()
                &&& after == (ChatView { search: after.search, ..*self }).topped(self.search.origin as int)
            },
            KeyCode::Enter => if query.len() == 0 {
                &&& after.search.is_none()
                &&& after == (ChatView { search: after.search, ..*self })
            } else {
                after == (ChatView { search: Search { typing: false, ..self.search }, ..*self })
            },
            KeyCode::Backspace => self.requeried(
                if query.len() == 0 {
                    query
                } else {
                    query.drop_last()
                },
                after,
            ),
            KeyCode::Char(c) => if key.ctrl {
                after == *self
            } else {
                self.requeried(query.push(c), after)
            },
            _ => after == *self,
        }
    }

    /// What a query that changed makes of a view: it is searched for again, from
    /// where the view stood when the search began.
    pub open spec fn requeried(&self, query: Seq<char>, after: ChatView) -> bool {
        &&& after.search.query@ == query
        &&& (ChatView { search: Search { query: after.search.query, ..self.search }, ..*self }).searched(
            self.search.origin as int,
            after,
        )
    }

    fn on_key_search(&mut self, key: Key)
        requires
            old(self).wf(),
        ensures
            old(self).typed(key, *final(self)),
    {
        match key.code {
            KeyCode::Esc => {
                let origin: u128 = self.search.origin;
                self.clear_search();
                self.set_top(origin);
            },
            KeyCode::Enter => {
                if count(self.search.query.as_str()) == 0 {
                    self.clear_search();
                } else {
                    self.search.typing = false;
                }
            },
            KeyCode::Backspace => {
                let v = crate::text::chars_of(self.search.query.as_str());
                let n: usize = v.len();
                if n > 0 {
                    self.search.query = crate::text::string_between(&v, 0, n - 1);
                    assert(self.search.query@ =~= v@.drop_last());
                }
                let origin: u128 = self.search.origin;
                self.search_from(origin);
            },
            KeyCode::Char(c) => {
                if !key.ctrl {
                    self.search.query.push(c);
                    let origin: u128 = self.search.origin;
                    self.search_from(origin);
                }
            },
            _ => {},
        }
    }

    /// How far a page goes.
    pub open spec fn page(&self) -> int {
        let p = less(self.visible as int, 2);
        if p < 1 {
            1
        } else {
            p
        }
    }

    /// The row `[` goes to: the header of the turn being read where that is above
    /// the top, and the one before it where it is the top.
    pub open spec fn turn_above(&self, laid: Laid) -> int {
        let b = laid.block_of(self.first());
        if laid.starts@[b] < self.first() {
            laid.starts@[b] as int
        } else {
            laid.starts@[less(b, 1)] as int
        }
    }

    /// The first of the starts from `i` on that is below row `top`.
    pub open spec fn start_below(starts: Seq<u128>, top: int, i: int) -> Option<u128>
        decreases starts.len() - i,
    {
        if i < 0 || i >= starts.len() {
            None
        } else if starts[i] > top {
            Some(starts[i])
        } else {
            ChatView::start_below(starts, top, i + 1)
        }
    }

    /// Whether `after` is the view with a turn flipped.
    pub open spec fn flipped(&self, seq: usize, after: ChatView) -> bool {
        &&& forall|s: usize| #[trigger] after.opened@.contains(s) <==> (s == seq) != self.opened@.contains(s)
        &&& after == (ChatView { opened: after.opened, ..self.stale() })
    }

    /// The turn the ones to fetch stand before.
    pub open spec fn before(&self) -> Option<usize> {
        match self.conversation {
            Some(c) => if !self.fetching && c.earlier > 0 && c.turns@.len() > 0 {
                Some(c.turns@[0].seq)
            } else {
                None
            },
            None => None,
        }
    }

    /// What a key makes of a view, and what it asks for.
    pub open spec fn pressed(&self, key: Key, after: ChatView, asked: Asked) -> bool {
        let page = self.page();
        let stays = asked == Asked::Nothing;
        if self.search.typing {
            stays && self.typed(key, after)
        } else {
            match key.code {
                KeyCode::Char('q') => asked == Asked::Close && after == *self,
                KeyCode::Esc => if self.search.query@.len() > 0 {
                    stays && after.search.is_none() && after == (ChatView { search: after.search, ..*self })
                } else {
                    asked == Asked::Close && after == *self
                },
                KeyCode::Char('d') => stays && after == (if key.ctrl {
                    self.down(page / 2)
                } else {
                    *self
                }),
                KeyCode::Char('u') => if key.ctrl {
                    stays && after == self.up(page / 2)
                } else {
                    after == *self && asked == (match self.before() {
                        Some(seq) => Asked::Earlier(seq),
                        None => Asked::Nothing,
                    })
                },
                KeyCode::Down | KeyCode::Char('j') => stays && after == self.down(1),
                KeyCode::Up | KeyCode::Char('k') => stays && after == self.up(1),
                KeyCode::PageDown | KeyCode::Char(' ') => stays && after == self.down(page),
                KeyCode::PageUp | KeyCode::Char('b') => stays && after == self.up(page),
                KeyCode::Home | KeyCode::Char('g') => stays && after == (ChatView {
                    back: self.lowest() as u128,
                    ..*self
                }),
                KeyCode::End | KeyCode::Char('G') => stays && after == (ChatView { back: 0, ..*self }),
                KeyCode::Char('[') => stays && after == (match self.laid {
                    Some(laid) => if laid.blocks@.len() == 0 {
                        *self
                    } else {
                        self.topped(self.turn_above(laid))
                    },
                    None => *self,
                }),
                KeyCode::Char(']') => stays && after == (match self.laid {
                    Some(laid) => match ChatView::start_below(laid.starts@, self.first(), 0) {
                        Some(row) => self.topped(row as int),
                        None => ChatView { back: 0, ..*self },
                    },
                    None => *self,
                }),
                KeyCode::Char('/') => stays && after.search.query@.len() == 0 && after.search.typing
                    && after.search.hits@.len() == 0 && after.search.current is None && after.search.origin
                    == self.first() && after == (ChatView { search: after.search, ..*self }),
                KeyCode::Char('n') => stays && after == self.stepped(true),
                KeyCode::Char('N') => stays && after == self.stepped(false),
                KeyCode::Char('t') => stays && after.opened@.len() == 0 && after == (ChatView {
                    tools_open: !self.tools_open,
                    opened: after.opened,
                    ..self.stale()
                }),
                KeyCode::Enter | KeyCode::Char('x') => stays && (match self.readable() {
                    Some(seq) => self.flipped(seq, after),
                    None => after == *self,
                }),
                KeyCode::Char('m') => stays && after == (ChatView { raw: !self.raw, ..self.stale() }),
                _ => stays && after == *self,
            }
        }
    }

    fn flip(&mut self, seq: usize)
        ensures
            old(self).flipped(seq, *final(self)),
    {
        let ghost was = self.opened@;
        let mut left: Vec<usize> = Vec::new();
        let mut there = false;
        let mut i: usize = 0;
        while i < self.opened.len()
            invariant
                i <= self.opened@.len(),
                was == self.opened@,
                there <==> exists|j: int| 0 <= j < i && was[j] == seq,
                forall|s: usize| #[trigger]
                    left@.contains(s) <==> s != seq && exists|j: int| 0 <= j < i && was[j] == s,
            decreases self.opened@.len() - i,
        {
            let one: usize = self.opened[i];
            let ghost prior = left@;
            if one == seq {
                there = true;
            } else {
                left.push(one);
                assert forall|s: usize| #[trigger] left@.contains(s) <==> prior.contains(s) || s == one by {
                    if s == one {
                        assert(left@[left@.len() - 1] == s);
                    }
                    if prior.contains(s) {
                        let j = choose|j: int| 0 <= j < prior.len() && prior[j] == s;
                        assert(left@[j] == s);
                    }
                }
            }
            assert forall|s: usize| #[trigger] left@.contains(s) <==> s != seq && exists|j: int|
                0 <= j < i + 1 && was[j] == s by {
                if s == one {
                    assert(was[i as int] == s);
                }
            }
            i += 1;
        }
        if !there {
            let ghost prior = left@;
            left.push(seq);
            assert forall|s: usize| #[trigger] left@.contains(s) <==> prior.contains(s) || s == seq by {
                if s == seq {
                    assert(left@[left@.len() - 1] == s);
                }
                if prior.contains(s) {
                    let j = choose|j: int| 0 <= j < prior.len() && prior[j] == s;
                    assert(left@[j] == s);
                }
            }
        }
        self.opened = left;
        self.relayout(true);
    }

    /// A key in the reader.
    ///
    /// There is nothing here that can touch the session: it is a transcript being
    /// read.
    pub fn on_key(&mut self, key: Key) -> (asked: Asked)
        requires
            old(self).wf(),
        ensures
            old(self).pressed(key, *final(self), asked),
            final(self).wf(),
    {
        if self.search.typing {
            self.on_key_search(key);
            return Asked::Nothing;
        }
        let page: u128 = if self.visible < 3 {
            1
        } else {
            self.visible as u128 - 2
        };
        match key.code {
            KeyCode::Char('q') => {
                return Asked::Close;
            },
            KeyCode::Esc => {
                if count(self.search.query.as_str()) == 0 {
                    return Asked::Close;
                }
                self.clear_search();
            },
            KeyCode::Char('d') => {
                if key.ctrl {
                    self.scroll_down(page / 2);
                }
            },
            KeyCode::Char('u') => {
                if key.ctrl {
                    self.scroll_up(page / 2);
                } else {
                    match &self.conversation {
                        Some(c) => {
                            if !self.fetching && c.earlier > 0 && c.turns.len() > 0 {
                                return Asked::Earlier(c.turns[0].seq);
                            }
                        },
                        None => {},
                    }
                }
            },
            KeyCode::Down | KeyCode::Char('j') => {
                self.scroll_down(1);
            },
            KeyCode::Up | KeyCode::Char('k') => {
                self.scroll_up(1);
            },
            KeyCode::PageDown | KeyCode::Char(' ') => {
                self.scroll_down(page);
            },
            KeyCode::PageUp | KeyCode::Char('b') => {
                self.scroll_up(page);
            },
            KeyCode::Home | KeyCode::Char('g') => {
                self.back = self.max_top();
            },
            KeyCode::End | KeyCode::Char('G') => {
                self.back = 0;
            },
            KeyCode::Char('[') => {
                self.to_turn_above();
            },
            KeyCode::Char(']') => {
                self.to_turn_below();
            },
            KeyCode::Char('/') => {
                let origin: u128 = self.top();
                self.search = Search { query: String::new(), typing: true, hits: Vec::new(), current: None, origin };
            },
            KeyCode::Char('n') => {
                self.step_hit(true);
            },
            KeyCode::Char('N') => {
                self.step_hit(false);
            },
            KeyCode::Char('t') => {
                self.tools_open = !self.tools_open;
                self.opened = Vec::new();
                self.relayout(true);
            },
            KeyCode::Enter | KeyCode::Char('x') => {
                match self.turn_to_open() {
                    Some(seq) => {
                        self.flip(seq);
                    },
                    None => {},
                }
            },
            KeyCode::Char('m') => {
                self.raw = !self.raw;
                self.relayout(true);
            },
            _ => {},
        }
        Asked::Nothing
    }

    fn to_turn_above(&mut self)
        requires
            old(self).wf(),
        ensures
            *final(self) == (match old(self).laid {
                Some(laid) => if laid.blocks@.len() == 0 {
                    *old(self)
                } else {
                    old(self).topped(old(self).turn_above(laid))
                },
                None => *old(self),
            }),
    {
        let top: u128 = self.top();
        let row: u128 = match &self.laid {
            None => {
                return;
            },
            Some(laid) => {
                if laid.blocks.len() == 0 {
                    return;
                }
                let b: usize = laid.block_at(top);
                if laid.starts[b] < top {
                    laid.starts[b]
                } else {
                    laid.starts[b.saturating_sub(1)]
                }
            },
        };
        self.set_top(row);
    }

    fn to_turn_below(&mut self)
        requires
            old(self).wf(),
        ensures
            *final(self) == (match old(self).laid {
                Some(laid) => match ChatView::start_below(laid.starts@, old(self).first(), 0) {
                    Some(row) => old(self).topped(row as int),
                    None => ChatView { back: 0, ..*old(self) },
                },
                None => *old(self),
            }),
    {
        let top: u128 = self.top();
        let next: Option<u128> = match &self.laid {
            None => {
                return;
            },
            Some(laid) => {
                let mut i: usize = 0;
                while i < laid.starts.len() && laid.starts[i] <= top
                    invariant
                        i <= laid.starts@.len(),
                        ChatView::start_below(laid.starts@, top as int, 0) == ChatView::start_below(
                            laid.starts@,
                            top as int,
                            i as int,
                        ),
                    decreases laid.starts@.len() - i,
                {
                    i += 1;
                }
                if i < laid.starts.len() {
                    Some(laid.starts[i])
                } else {
                    None
                }
            },
        };
        match next {
            Some(row) => {
                self.set_top(row);
            },
            None => {
                self.back = 0;
            },
        }
    }
}

/// A view that is put with a row at its top has that row at its top, or is as far
/// down as it can be.
pub proof fn the_row_asked_for_is_at_the_top(view: ChatView, row: int)
    requires
        0 <= row,
    ensures
        view.topped(row).first() == (if row < view.lowest() {
            row
        } else {
            view.lowest()
        }),
{
}

/// Going to the next hit and back is where it was.
pub proof fn stepping_back_returns_to_the_hit(view: ChatView, i: usize)
    requires
        view.search.current == Some(i),
        i < view.search.hits@.len(),
        view.search.hits@.len() <= usize::MAX,
    ensures
        view.stepped(true).stepped(false).search.current == Some(i),
        view.stepped(false).stepped(true).search.current == Some(i),
{
    let n = view.search.hits@.len() as int;
    let a = (i + 1) % n;
    let b = (i + n - 1) % n;
    assert((a + n - 1) % n == i) by (nonlinear_arith)
        requires
            0 <= i < n,
            a == (i + 1) % n,
    ;
    assert((b + 1) % n == i) by (nonlinear_arith)
        requires
            0 <= i < n,
            b == (i + n - 1) % n,
    ;
}

/// Scrolling up and down again by as much is where it was, away from the ends.
pub proof fn scrolling_back_returns(view: ChatView, rows: int)
    requires
        0 <= rows,
        view.back + rows <= view.lowest(),
    ensures
        view.up(rows).down(rows) == view,
{
}

/// Scrolling never leaves the conversation.
pub proof fn scrolling_stays_inside(view: ChatView, rows: int)
    requires
        0 <= rows,
        view.rows() <= u128::MAX,
        view.back <= view.lowest(),
    ensures
        view.up(rows).back <= view.up(rows).lowest(),
        view.down(rows).back <= view.down(rows).lowest(),
        view.topped(rows).back <= view.topped(rows).lowest(),
{
}

/// The last block of a pool with a number.
pub open spec fn kept(pool: Seq<BlockView>, seq: Option<usize>) -> Option<BlockView>
    decreases pool.len(),
{
    if pool.len() == 0 {
        None
    } else if pool.last().seq == seq {
        Some(pool.last())
    } else {
        kept(pool.drop_last(), seq)
    }
}

/// A pool without the blocks with a number.
pub open spec fn without(pool: Seq<BlockView>, seq: Option<usize>) -> Seq<BlockView>
    decreases pool.len(),
{
    if pool.len() == 0 {
        Seq::empty()
    } else if pool.last().seq == seq {
        without(pool.drop_last(), seq)
    } else {
        without(pool.drop_last(), seq).push(pool.last())
    }
}

/// Whether each row of the blocks has its plain text.
pub open spec fn all_plain(b: Seq<BlockView>) -> bool {
    forall|i: int| 0 <= i < b.len() ==> (#[trigger] b[i]).plain.len() == b[i].lines.len()
}

proof fn without_adds(a: Seq<BlockView>, b: Seq<BlockView>, seq: Option<usize>)
    ensures
        without(a + b, seq) == without(a, seq) + without(b, seq),
        kept(a + b, seq) == (match kept(b, seq) {
            Some(x) => Some(x),
            None => kept(a, seq),
        }),
    decreases b.len(),
{
    if b.len() == 0 {
        assert(a + b =~= a);
        assert(without(a, seq) + without(b, seq) =~= without(a, seq));
    } else {
        without_adds(a, b.drop_last(), seq);
        assert((a + b).drop_last() =~= a + b.drop_last());
        assert((a + b).last() == b.last());
        assert(without(a + b, seq) =~= without(a, seq) + without(b, seq));
    }
}

proof fn without_stays_plain(b: Seq<BlockView>, seq: Option<usize>)
    requires
        all_plain(b),
    ensures
        all_plain(without(b, seq)),
        kept(b, seq) matches Some(x) ==> x.plain.len() == x.lines.len(),
    decreases b.len(),
{
    if b.len() > 0 {
        let c = b.drop_last();
        assert forall|i: int| 0 <= i < c.len() implies (#[trigger] c[i]).plain.len() == c[i].lines.len() by {
            assert(c[i] == b[i]);
        }
        without_stays_plain(c, seq);
        assert(b.last() == b[b.len() - 1]);
    }
}

fn take_block(pool: &mut Vec<Block>, seq: Option<usize>) -> (r: Option<Block>)
    ensures
        blocks_view(final(pool)@) == without(blocks_view(old(pool)@), seq),
        match (r, kept(blocks_view(old(pool)@), seq)) {
            (Some(a), Some(b)) => a@ == b,
            (None, None) => true,
            _ => false,
        },
{
    let ghost was = blocks_view(pool@);
    let ghost mut done: Seq<BlockView> = Seq::empty();
    let mut found: Option<Block> = None;
    let mut i: usize = pool.len();
    assert(was.take(i as int) =~= was);
    assert(was =~= was + done);
    assert(blocks_view(pool@) =~= was.take(i as int) + without(done, seq));
    while i > 0
        invariant
            i <= pool@.len(),
            i <= was.len(),
            was == was.take(i as int) + done,
            blocks_view(pool@) == was.take(i as int) + without(done, seq),
            match (found, kept(done, seq)) {
                (Some(a), Some(b)) => a@ == b,
                (None, None) => true,
                _ => false,
            },
        decreases i,
    {
        let ghost one = was[i - 1];
        let ghost prior = pool@;
        let ghost next = seq![one] + done;
        proof {
            assert(blocks_view(pool@)[i - 1] == pool@[i - 1]@);
            assert(was.take(i as int)[i - 1] == one);
            assert(pool@[i - 1]@ == one);
            without_adds(seq![one], done, seq);
            assert(seq![one].drop_last() =~= Seq::<BlockView>::empty());
            assert(was =~= was.take(i - 1) + next);
            assert(without(Seq::<BlockView>::empty(), seq) =~= Seq::<BlockView>::empty());
        }
        let mine = match (pool[i - 1].seq, seq) {
            (Some(a), Some(b)) => a == b,
            (None, None) => true,
            _ => false,
        };
        assert(mine == (one.seq == seq));
        if mine {
            let b = pool.remove(i - 1);
            assert(without(seq![one], seq) =~= Seq::<BlockView>::empty());
            assert(without(next, seq) =~= without(done, seq));
            assert(blocks_view(pool@) =~= blocks_view(prior).remove(i - 1));
            assert(blocks_view(pool@) =~= was.take(i - 1) + without(next, seq));
            if found.is_none() {
                found = Some(b);
            }
        } else {
            assert(without(seq![one], seq) =~= seq![one]);
            assert(blocks_view(pool@) =~= was.take(i - 1) + without(next, seq));
            assert(kept(seq![one], seq) == kept(Seq::<BlockView>::empty(), seq));
        }
        proof {
            done = next;
        }
        i -= 1;
    }
    assert(was.take(0) + done =~= done);
    assert(blocks_view(pool@) =~= without(done, seq));
    found
}

/// The first block from `i` on with a number.
pub open spec fn place_of(b: Seq<BlockView>, seq: Option<usize>, i: int) -> Option<int>
    decreases b.len() - i,
{
    if i < 0 || i >= b.len() {
        None
    } else if b[i].seq == seq {
        Some(i)
    } else {
        place_of(b, seq, i + 1)
    }
}

/// The blocks of the note and of the first `n` turns, and the blocks of `pool`
/// that are left over. A block is kept where it has the turn's number and its
/// tools are drawn the same way; otherwise the turn is laid out.
pub open spec fn laid_turns(
    pool: Seq<BlockView>,
    conv: Conversation,
    drawn: Seq<Drawn>,
    width: usize,
    look: Look,
    n: int,
) -> (Seq<BlockView>, Seq<BlockView>)
    decreases n,
{
    if n <= 0 {
        match conv.note {
            Some(note) => (
                seq![
                    match kept(pool, None) {
                        Some(b) => b,
                        None => note_of(note@, width as int),
                    },
                ],
                without(pool, None),
            ),
            None => (Seq::empty(), pool),
        }
    } else {
        let (before, left) = laid_turns(pool, conv, drawn, width, look, n - 1);
        let turn = conv.turns@[n - 1];
        let open = look.tools_open != look.opened.contains(turn.seq);
        let fresh = turn_of(look.session, turn, drawn[n - 1], width as int, look.raw, open);
        (
            before.push(
                match kept(left, Some(turn.seq)) {
                    Some(b) => if b.open == open {
                        b
                    } else {
                        fresh
                    },
                    None => fresh,
                },
            ),
            without(left, Some(turn.seq)),
        )
    }
}

/// What decides how a turn is drawn.
pub struct Look {
    pub session: Session,
    pub raw: bool,
    pub tools_open: bool,
    pub opened: Seq<usize>,
}

fn row_of_anchor(blocks: &Vec<Block>, starts: &Vec<u128>, seq: Option<usize>, offset: u128) -> (r: Option<u128>)
    requires
        starts@.len() == blocks@.len(),
        forall|j: int| 0 <= j < starts@.len() ==> #[trigger] starts@[j] == rows_before(blocks_view(blocks@), j),
        rows_before(blocks_view(blocks@), blocks@.len() as int) <= u128::MAX,
    ensures
        match (r, place_of(blocks_view(blocks@), seq, 0)) {
            (Some(row), Some(b)) => {
                let last = less(blocks_view(blocks@)[b].lines.len() as int, 1);
                row == rows_before(blocks_view(blocks@), b) + (if offset < last {
                    offset as int
                } else {
                    last
                })
            },
            (None, None) => true,
            _ => false,
        },
{
    let ghost bv = blocks_view(blocks@);
    let mut i: usize = 0;
    while i < blocks.len()
        invariant
            i <= blocks@.len(),
            bv == blocks_view(blocks@),
            starts@.len() == blocks@.len(),
            forall|j: int| 0 <= j < starts@.len() ==> #[trigger] starts@[j] == rows_before(bv, j),
            rows_before(bv, blocks@.len() as int) <= u128::MAX,
            place_of(bv, seq, 0) == place_of(bv, seq, i as int),
        decreases blocks@.len() - i,
    {
        assert(bv[i as int] == blocks@[i as int]@);
        let mine = match (blocks[i].seq, seq) {
            (Some(a), Some(b)) => a == b,
            (None, None) => true,
            _ => false,
        };
        if mine {
            proof {
                rows_grow(bv, i + 1, bv.len() as int);
            }
            let last: u128 = blocks[i].lines.len().saturating_sub(1) as u128;
            let more: u128 = if offset < last {
                offset
            } else {
                last
            };
            return Some(starts[i] + more);
        }
        i += 1;
    }
    None
}

impl ChatView {
    /// Whether what is laid out is right for a width.
    pub open spec fn is_fresh(&self, width: usize) -> bool {
        self.laid matches Some(l) && l.width == width && l.raw == self.raw && !self.dirty
    }

    /// The turn at the top, and the row in it: what survives being laid out again.
    pub open spec fn anchor(&self) -> Option<(Option<usize>, int)> {
        match self.laid {
            Some(l) => if (self.back > 0 || self.hold) && l.blocks@.len() > 0 {
                let b = l.block_of(self.first());
                Some((l.blocks@[b].seq, self.first() - l.starts@[b]))
            } else {
                None
            },
            None => None,
        }
    }

    /// How the turns are drawn.
    pub open spec fn look(&self) -> Look {
        Look { session: self.session, raw: self.raw, tools_open: self.tools_open, opened: self.opened@ }
    }

    /// The blocks that may still be right for a width.
    pub open spec fn reusable(&self, width: usize) -> Seq<BlockView> {
        match self.laid {
            Some(l) => if l.width == width && l.raw == self.raw {
                blocks_view(l.blocks@)
            } else {
                Seq::empty()
            },
            None => Seq::empty(),
        }
    }

    /// The row the one at the top has become.
    pub open spec fn anchored_row(&self, blocks: Seq<BlockView>) -> Option<int> {
        match self.anchor() {
            None => None,
            Some((seq, offset)) => match place_of(blocks, seq, 0) {
                None => None,
                Some(b) => {
                    let last = less(blocks[b].lines.len() as int, 1);
                    Some(
                        rows_before(blocks, b) + (if offset < last {
                            offset
                        } else {
                            last
                        }),
                    )
                },
            },
        }
    }

    /// What laying out makes of a view.
    pub open spec fn laid_out(&self, width: usize, drawn: Seq<Drawn>, after: ChatView) -> bool {
        if self.is_fresh(width) || self.conversation is None {
            after == *self
        } else {
            let conv = self.conversation->0;
            let blocks = laid_turns(self.reusable(width), conv, drawn, width, self.look(), conv.turns@.len() as int).0;
            let bare = ChatView { laid: after.laid, dirty: false, hold: false, ..*self };
            let placed = match self.anchored_row(blocks) {
                Some(row) => bare.topped(row),
                None => bare,
            };
            &&& after.laid is Some
            &&& after.laid->0.wf()
            &&& after.laid->0.width == width
            &&& after.laid->0.raw == self.raw
            &&& blocks_view(after.laid->0.blocks@) == blocks
            &&& if self.search.query@.len() == 0 {
                after == placed
            } else {
                &&& row_numbers(after.search.hits@) == placed.hits_for(self.search.query@)
                &&& after == (ChatView {
                    search: Search {
                        hits: after.search.hits,
                        current: match self.search.current {
                            Some(i) => if i < after.search.hits@.len() {
                                Some(i)
                            } else {
                                None
                            },
                            None => None,
                        },
                        ..self.search
                    },
                    ..placed
                })
            }
        }
    }

    /// Whether the view has to be laid out before it is shown at a width.
    pub fn wants(&self, width: usize) -> (r: bool)
        ensures
            r == (!self.is_fresh(width) && self.conversation is Some),
    {
        let fresh = match &self.laid {
            Some(l) => l.width == width && l.raw == self.raw && !self.dirty,
            None => false,
        };
        !fresh && self.conversation.is_some()
    }

    fn anchor_of(&self) -> (r: Option<(Option<usize>, u128)>)
        requires
            self.wf(),
        ensures
            match (r, self.anchor()) {
                (Some(a), Some(b)) => a.0 == b.0 && a.1 == b.1,
                (None, None) => true,
                _ => false,
            },
    {
        match &self.laid {
            Some(l) => {
                if (self.back > 0 || self.hold) && l.blocks.len() > 0 {
                    let top: u128 = self.top();
                    let b: usize = l.block_at(top);
                    proof {
                        a_row_is_in_its_block(*l, top as int);
                    }
                    Some((l.blocks[b].seq, top - l.starts[b]))
                } else {
                    None
                }
            },
            None => None,
        }
    }

    fn lay_turns(&self, conv: &Conversation, drawn: &Vec<Drawn>, width: usize, pool: Vec<Block>) -> (r: Vec<Block>)
        requires
            conv.note matches Some(note) ==> flows(note@, width as int),
            drawn@.len() == conv.turns@.len(),
            forall|i: int| 0 <= i < drawn@.len() ==> drawn_for(#[trigger] drawn@[i], conv.turns@[i]),
            all_plain(blocks_view(pool@)),
        ensures
            blocks_view(r@) == laid_turns(
                blocks_view(pool@),
                *conv,
                drawn@,
                width,
                self.look(),
                conv.turns@.len() as int,
            ).0,
            all_plain(blocks_view(r@)),
    {
        let ghost whole = blocks_view(pool@);
        let mut pool = pool;
        let mut blocks: Vec<Block> = Vec::new();
        assert(blocks_view(blocks@) =~= Seq::<BlockView>::empty());
        match &conv.note {
            Some(note) => {
                proof {
                    without_stays_plain(blocks_view(pool@), None);
                }
                let b = match take_block(&mut pool, None) {
                    Some(b) => b,
                    None => note_block(note.as_str(), width),
                };
                let ghost bv = b@;
                blocks.push(b);
                assert(blocks_view(blocks@) =~= seq![bv]);
            },
            None => {},
        }
        let mut i: usize = 0;
        while i < conv.turns.len()
            invariant
                i <= conv.turns@.len(),
                drawn@.len() == conv.turns@.len(),
                forall|i: int| 0 <= i < drawn@.len() ==> drawn_for(#[trigger] drawn@[i], conv.turns@[i]),
                (blocks_view(blocks@), blocks_view(pool@)) == laid_turns(whole, *conv, drawn@, width, self.look(), i as int),
                all_plain(blocks_view(blocks@)),
                all_plain(blocks_view(pool@)),
            decreases conv.turns@.len() - i,
        {
            let turn = &conv.turns[i];
            let open = self.is_open(turn.seq);
            let ghost before = blocks_view(blocks@);
            proof {
                without_stays_plain(blocks_view(pool@), Some(turn.seq));
                assert(drawn_for(drawn@[i as int], conv.turns@[i as int]));
            }
            let b = match take_block(&mut pool, Some(turn.seq)) {
                Some(b) => {
                    if b.open == open {
                        b
                    } else {
                        turn_block(&self.session, turn, &drawn[i], width, self.raw, open)
                    }
                },
                None => turn_block(&self.session, turn, &drawn[i], width, self.raw, open),
            };
            let ghost bv = b@;
            blocks.push(b);
            proof {
                assert(blocks_view(blocks@) =~= before.push(bv));
                assert forall|j: int| 0 <= j < blocks_view(blocks@).len() implies (#[trigger] blocks_view(
                    blocks@,
                )[j]).plain.len() == blocks_view(blocks@)[j].lines.len() by {
                    if j < before.len() {
                        assert(blocks_view(blocks@)[j] == before[j]);
                    } else {
                        assert(blocks_view(blocks@)[j] == bv);
                    }
                }
            }
            i += 1;
        }
        blocks
    }

    /// Bring the layout up to date with `width`, reusing every block that is still
    /// right, and keep the row that was at the top at the top.
    ///
    /// `drawn` holds what is drawn elsewhere of each turn, at this width.
    #[verifier::rlimit(40)]
    pub fn lay_out(&mut self, width: usize, drawn: &Vec<Drawn>)
        requires
            old(self).wf(),
            old(self).conversation matches Some(c) ==> {
                &&& c.note matches Some(note) ==> flows(note@, width as int)
                &&& drawn@.len() == c.turns@.len()
                &&& forall|i: int| 0 <= i < drawn@.len() ==> drawn_for(#[trigger] drawn@[i], c.turns@[i])
            },
        ensures
            old(self).laid_out(width, drawn@, *final(self)),
            final(self).wf(),
    {
        if !self.wants(width) {
            return;
        }
        let anchor = self.anchor_of();
        let mut pool: Vec<Block> = Vec::new();
        assert(blocks_view(pool@) =~= Seq::<BlockView>::empty());
        let blocks: Vec<Block>;
        let mut held: Option<Laid> = None;
        std::mem::swap(&mut held, &mut self.laid);
        match held {
            Some(l) => {
                if l.width == width && l.raw == self.raw {
                    pool = l.blocks;
                }
            },
            None => {},
        }
        assert(blocks_view(pool@) == old(self).reusable(width));
        match &self.conversation {
            None => {
                return;
            },
            Some(conv) => {
                blocks = self.lay_turns(conv, drawn, width, pool);
            },
        }
        let ghost bv = blocks_view(blocks@);
        let mut starts: Vec<u128> = Vec::new();
        let mut total: u128 = 0;
        let mut i: usize = 0;
        while i < blocks.len()
            invariant
                i <= blocks@.len(),
                bv == blocks_view(blocks@),
                starts@.len() == i,
                forall|j: int| 0 <= j < i ==> #[trigger] starts@[j] == rows_before(bv, j),
                total == rows_before(bv, i as int),
                total <= i * usize::MAX,
            decreases blocks@.len() - i,
        {
            assert(bv[i as int] == blocks@[i as int]@);
            assert(i * usize::MAX + usize::MAX == (i + 1) * usize::MAX) by (nonlinear_arith);
            assert((i + 1) * usize::MAX <= u128::MAX) by (nonlinear_arith)
                requires
                    i < usize::MAX,
                    usize::MAX <= u64::MAX,
            ;
            starts.push(total);
            total = total + blocks[i].lines.len() as u128;
            i += 1;
        }
        let row: Option<u128> = match anchor {
            None => None,
            Some((seq, offset)) => row_of_anchor(&blocks, &starts, seq, offset),
        };
        self.laid = Some(Laid { width, raw: self.raw, blocks, starts, total });
        self.dirty = false;
        self.hold = false;
        match row {
            Some(r) => {
                self.set_top(r);
            },
            None => {},
        }
        if count(self.search.query.as_str()) > 0 {
            let hits = self.found();
            self.search.current = match self.search.current {
                Some(k) => {
                    if k < hits.len() {
                        Some(k)
                    } else {
                        None
                    }
                },
                None => None,
            };
            self.search.hits = hits;
        }
    }
}

/// A row of the reader as it is shown.
pub struct ShownRow {
    pub line: Line,
    /// Where the query stands in it.
    pub found: Vec<usize>,
    /// Whether it is the hit last landed on.
    pub current: bool,
    pub links: Vec<Link>,
}

/// What a [`ShownRow`] says.
#[verifier::ext_equal]
pub struct ShownView {
    pub line: LineView,
    pub found: Seq<int>,
    pub current: bool,
    pub links: Seq<LinkView>,
}

impl View for ShownRow {
    type V = ShownView;

    open spec fn view(&self) -> ShownView {
        ShownView {
            line: self.line@,
            found: places(self.found@),
            current: self.current,
            links: links_view(self.links@),
        }
    }
}

/// Of the first `n` links those on a row.
pub open spec fn links_on(links: Seq<LinkView>, row: int, n: int) -> Seq<LinkView>
    decreases n,
{
    if n <= 0 {
        Seq::empty()
    } else if links[n - 1].line == row {
        links_on(links, row, n - 1).push(links[n - 1])
    } else {
        links_on(links, row, n - 1)
    }
}

fn links_on_of(links: &Vec<Link>, row: usize) -> (r: Vec<Link>)
    ensures
        links_view(r@) == links_on(links_view(links@), row as int, links@.len() as int),
{
    let ghost lv = links_view(links@);
    let mut out: Vec<Link> = Vec::new();
    let mut i: usize = 0;
    assert(links_view(out@) =~= Seq::<LinkView>::empty());
    while i < links.len()
        invariant
            i <= links@.len(),
            lv == links_view(links@),
            links_view(out@) == links_on(lv, row as int, i as int),
        decreases links@.len() - i,
    {
        let l = &links[i];
        assert(lv[i as int] == l@);
        if l.line == row {
            let ghost was = out@;
            let one = Link { line: l.line, from: l.from, to: l.to, url: l.url.clone() };
            assert(one@ == l@);
            out.push(one);
            assert(links_view(out@) =~= links_view(was).push(l@));
        }
        i += 1;
    }
    out
}

/// Where the text stands: inside the border, with a cell of padding on either
/// side, no wider than prose reads, and centred.
pub open spec fn text_width(inner: Rect) -> int {
    if inner.width < 3 {
        1
    } else if inner.width - 2 > MAX_TEXT {
        MAX_TEXT as int
    } else {
        inner.width - 2
    }
}

/// The inside of the reader's border, and the column its text stands in.
pub fn reader_column(area: Rect) -> (r: (Rect, Rect))
    ensures
        r.0 == area.inside(1, 1),
        r.1.y == r.0.y,
        r.1.height == r.0.height,
        r.1.width == text_width(r.0),
        r.1.x == (if r.0.x + less(r.0.width as int, r.1.width as int) / 2 > u16::MAX {
            u16::MAX as int
        } else {
            r.0.x + less(r.0.width as int, r.1.width as int) / 2
        }),
{
    let inner = area.inner(1, 1);
    let width: u16 = if inner.width < 3 {
        1
    } else if inner.width - 2 > MAX_TEXT as u16 {
        MAX_TEXT as u16
    } else {
        inner.width - 2
    };
    let x: u16 = inner.x.saturating_add(inner.width.saturating_sub(width) / 2);
    (inner, Rect { x, y: inner.y, width, height: inner.height })
}

impl ChatView {
    /// The row of the hit last landed on.
    pub open spec fn current_row(&self) -> Option<u128> {
        match self.search.current {
            Some(i) => if i < self.search.hits@.len() {
                Some(self.search.hits@[i as int])
            } else {
                None
            },
            None => None,
        }
    }

    /// A row as it is shown. An age stands behind each header, and is counted when
    /// it is drawn: one laid out would go stale.
    pub open spec fn shown_row(&self, laid: Laid, row: int, now: int) -> ShownView {
        let b = laid.blocks@[laid.block_of(row)]@;
        let at = row - laid.starts@[laid.block_of(row)];
        let query = lower_text(self.search.query@);
        ShownView {
            line: if at == 0 && b.ts is Some {
                b.lines[at].with(" · "@ + age_text(b.ts->0, now), Ink::Dim)
            } else {
                b.lines[at]
            },
            found: if query.len() > 0 {
                found_from(b.plain[at], query, 0)
            } else {
                Seq::empty()
            },
            current: self.current_row() == Some(row as u128),
            links: links_on(b.links, at, b.links.len() as int),
        }
    }

    /// How many rows are on screen.
    pub open spec fn on_screen(&self) -> int {
        if self.rows() - self.first() < self.visible {
            self.rows() - self.first()
        } else {
            self.visible as int
        }
    }

    /// The rows on screen, from the top.
    pub fn shown_rows(&self, now: i64) -> (r: Vec<ShownRow>)
        requires
            self.wf(),
        ensures
            match self.laid {
                None => r@.len() == 0,
                Some(laid) => {
                    &&& r@.len() == self.on_screen()
                    &&& forall|i: int|
                        0 <= i < r@.len() ==> (#[trigger] r@[i])@ == self.shown_row(laid, self.first() + i, now as int)
                },
            },
    {
        let mut rows: Vec<ShownRow> = Vec::new();
        let laid = match &self.laid {
            None => {
                return rows;
            },
            Some(l) => l,
        };
        let top: u128 = self.top();
        let query = lower(self.search.query.as_str());
        let current: Option<u128> = match self.search.current {
            Some(i) => {
                if i < self.search.hits.len() {
                    Some(self.search.hits[i])
                } else {
                    None
                }
            },
            None => None,
        };
        let left: u128 = laid.total - top;
        let n: usize = if left < self.visible as u128 {
            left as usize
        } else {
            self.visible
        };
        let mut i: usize = 0;
        while i < n
            invariant
                i <= n,
                laid.wf(),
                self.laid == Some(*laid),
                top == self.first(),
                n == self.on_screen(),
                top + n <= laid.total,
                query@ == lower_text(self.search.query@),
                current == self.current_row(),
                rows@.len() == i,
                forall|j: int|
                    0 <= j < i ==> (#[trigger] rows@[j])@ == self.shown_row(*laid, self.first() + j, now as int),
            decreases n - i,
        {
            let row: u128 = top + i as u128;
            match laid.row(row) {
                None => {},
                Some((b, at)) => {
                    let block = &laid.blocks[b];
                    assert(block@.lines[at as int] == block.lines.lines@[at as int]@);
                    assert(block@.plain[at as int] == block.plain@[at as int]@);
                    let mut line = block.lines.lines[at].copy();
                    match &block.ts {
                        Some(ts) => {
                            if at == 0 {
                                let age = cat(" · ", relative_age(ts.as_str(), now).as_str());
                                line.put(age.as_str(), Ink::Dim);
                            }
                        },
                        None => {},
                    }
                    let found = if query.len() > 0 {
                        matches_in(&block.plain[at], &query)
                    } else {
                        let none: Vec<usize> = Vec::new();
                        assert(places(none@) =~= Seq::<int>::empty());
                        none
                    };
                    let here = match current {
                        Some(c) => c == row,
                        None => false,
                    };
                    let links = links_on_of(&block.links, at);
                    assert(links_view(block.links@).len() == block.links@.len());
                    let one = ShownRow { line, found, current: here, links };
                    assert(one@ == self.shown_row(*laid, self.first() + i, now as int));
                    rows.push(one);
                },
            }
            i += 1;
        }
        rows
    }

    /// The title: a conversation of another machine says which, since nothing else
    /// would tell it apart.
    pub fn title(&self) -> (r: String)
        ensures
            r@ == (match self.session.remote {
                Some(remote) => " "@ + self.session.label() + " — conversation · on "@ + remote.host@ + " "@,
                None => " "@ + self.session.label() + " — conversation "@,
            }),
    {
        let mut s = cat(" ", self.session.display_label());
        match &self.session.remote {
            Some(remote) => {
                s.append(" — conversation · on ");
                s.append(remote.host.as_str());
                s.append(" ");
            },
            None => {
                s.append(" — conversation ");
            },
        }
        s
    }

    /// What is said while there is no conversation to show.
    pub fn waiting(&self, now: u64) -> (r: Option<Line>)
        ensures
            match (r, self.conversation, self.error) {
                (None, Some(_), _) => true,
                (Some(l), None, Some(why)) => l@ == blank().with("  "@ + why@, Ink::Failed),
                (Some(l), None, None) => l@ == blank().with("  "@ + seq![frame_at(now as int)], Ink::Title).with(
                    if self.host is Some {
                        "  Reading it over ssh…"@
                    } else {
                        "  Reading the transcript…"@
                    },
                    Ink::Value,
                ),
                _ => false,
            },
    {
        if self.conversation.is_some() {
            return None;
        }
        match &self.error {
            Some(why) => Some(line_of(cat("  ", why.as_str()).as_str(), Ink::Failed)),
            None => {
                let mut s = "  ".to_owned();
                let frame = spinner_frame(now);
                s.push(frame);
                assert(s@ =~= "  "@ + seq![frame]);
                let mut l = line_of(s.as_str(), Ink::Title);
                l.put(
                    if self.host.is_some() {
                        "  Reading it over ssh…"
                    } else {
                        "  Reading the transcript…"
                    },
                    Ink::Value,
                );
                Some(l)
            },
        }
    }

    /// What the footer says of a search.
    pub open spec fn search_text(&self) -> Seq<Seq<char>> {
        let s = self.search;
        let n = s.hits@.len();
        if s.query@.len() == 0 {
            Seq::empty()
        } else if n == 0 {
            seq!["“"@ + s.query@ + "” not found"@]
        } else {
            match s.current {
                Some(i) => seq!["“"@ + s.query@ + "” "@ + dec((i + 1) as nat) + " of "@ + dec(n) + " · n N"@],
                None => seq!["“"@ + s.query@ + "” "@ + dec(n) + " · n N"@],
            }
        }
    }

    /// What the footer says of earlier turns.
    pub open spec fn earlier_text(&self, now: int) -> Seq<Seq<char>> {
        if self.fetching {
            seq![seq![frame_at(now)] + " loading earlier…"@]
        } else {
            match self.conversation {
                Some(c) => if c.earlier > 0 {
                    seq!["u load "@ + dec(c.earlier as nat) + " earlier"@]
                } else {
                    Seq::empty()
                },
                None => Seq::empty(),
            }
        }
    }

    /// The keys the footer names, most useful first.
    pub open spec fn footer_parts(&self, now: int) -> Seq<Seq<char>> {
        self.search_text() + seq![
            "/ search"@,
            if self.tools_open {
                "t fold tools"@
            } else {
                "↵ tools · t all"@
            },
            "[ ] turn"@,
            if self.raw {
                "m rendered"@
            } else {
                "m source"@
            },
        ] + self.earlier_text(now) + seq!["q close"@]
    }

    /// What the footer says of a query being typed.
    pub open spec fn typing_count(&self) -> Seq<char> {
        let n = self.search.hits@.len();
        if self.search.query@.len() == 0 {
            ""@
        } else if n == 0 {
            "  no match"@
        } else {
            "  "@ + dec(n) + " rows"@
        }
    }

    /// The bottom border: the query while it is typed, and otherwise the keys.
    pub fn footer(&self, now: u64) -> (r: Line)
        ensures
            if self.search.typing {
                r@ == blank().with(" /"@, Ink::Title).with(self.search.query@ + "▏"@, Ink::Value).with(
                    self.typing_count() + " · enter keep · esc cancel "@,
                    Ink::Dim,
                )
            } else {
                exists|parts: Seq<String>|
                    words(parts) == self.footer_parts(now as int) && r@ == blank().with(
                        " "@ + #[trigger] joined(parts, " · "@) + " "@,
                        Ink::Dim,
                    )
            },
    {
        let s = &self.search;
        let n: usize = s.hits.len();
        let empty = count(s.query.as_str()) == 0;
        if s.typing {
            let mut tally = if empty {
                "".to_owned()
            } else if n == 0 {
                "  no match".to_owned()
            } else {
                let mut t = cat("  ", decimal(n as u128).as_str());
                t.append(" rows");
                t
            };
            tally.append(" · enter keep · esc cancel ");
            let mut l = line_of(" /", Ink::Title);
            l.put(cat(s.query.as_str(), "▏").as_str(), Ink::Value);
            l.put(tally.as_str(), Ink::Dim);
            return l;
        }
        let mut parts: Vec<String> = Vec::new();
        assert(words(parts@) =~= Seq::<Seq<char>>::empty());
        if !empty {
            let mut t = cat("“", s.query.as_str());
            if n == 0 {
                t.append("” not found");
            } else {
                t.append("” ");
                match s.current {
                    Some(i) => {
                        t.append(decimal(i as u128 + 1).as_str());
                        t.append(" of ");
                        t.append(decimal(n as u128).as_str());
                        t.append(" · n N");
                    },
                    None => {
                        t.append(decimal(n as u128).as_str());
                        t.append(" · n N");
                    },
                }
            }
            crate::text::push_word(&mut parts, t);
        }
        assert(words(parts@) =~= self.search_text());
        crate::text::push_word(&mut parts, "/ search".to_owned());
        crate::text::push_word(
            &mut parts,
            (if self.tools_open {
                "t fold tools"
            } else {
                "↵ tools · t all"
            }).to_owned(),
        );
        crate::text::push_word(&mut parts, "[ ] turn".to_owned());
        crate::text::push_word(
            &mut parts,
            (if self.raw {
                "m rendered"
            } else {
                "m source"
            }).to_owned(),
        );
        let ghost before = words(parts@);
        if self.fetching {
            let mut t = String::new();
            let frame = spinner_frame(now);
            t.push(frame);
            assert(t@ =~= seq![frame]);
            t.append(" loading earlier…");
            crate::text::push_word(&mut parts, t);
        } else {
            match &self.conversation {
                Some(c) => {
                    if c.earlier > 0 {
                        let mut t = cat("u load ", decimal(c.earlier as u128).as_str());
                        t.append(" earlier");
                        crate::text::push_word(&mut parts, t);
                    }
                },
                None => {},
            }
        }
        assert(words(parts@) =~= before + self.earlier_text(now as int));
        crate::text::push_word(&mut parts, "q close".to_owned());
        assert(words(parts@) =~= self.footer_parts(now as int));
        let mut text = cat(" ", join(&parts, " · ").as_str());
        text.append(" ");
        line_of(text.as_str(), Ink::Dim)
    }
}

impl App {
    /// Whether the conversation being read is laid out well.
    pub open spec fn chat_wf(&self) -> bool {
        self.chat matches Some(v) ==> v.wf()
    }

    /// A key in the reader.
    pub fn on_key_conversation(&mut self, key: Key)
        requires
            old(self).chat_wf(),
        ensures
            final(self).chat_wf(),
            match old(self).chat {
                None => *final(self) == (App { needs_redraw: true, mode: Mode::List, ..*old(self) }),
                Some(view) => exists|after: ChatView, asked: Asked| #[trigger]
                    view.pressed(key, after, asked) && old(self).answered(after, asked, *final(self)),
            },
    {
        self.needs_redraw = true;
        let mut chat: Option<ChatView> = None;
        std::mem::swap(&mut chat, &mut self.chat);
        match chat {
            None => {
                self.mode = Mode::List;
            },
            Some(view) => {
                let mut view = view;
                let ghost was = view;
                let asked = view.on_key(key);
                assert(was.pressed(key, view, asked));
                let ghost after = view;
                match asked {
                    Asked::Nothing => {
                        self.chat = Some(view);
                    },
                    Asked::Close => {
                        self.mode = Mode::List;
                    },
                    Asked::Earlier(seq) => {
                        let key = view.session.key();
                        view.fetching = true;
                        self.chat = Some(view);
                        self.ask(crate::app::Effect::FetchChat { key, before: Some(seq) });
                        assert(self.effects@.drop_last() =~= old(self).effects@);
                    },
                }
                assert(old(self).answered(after, asked, *self));
            },
        }
    }

    /// What a key of the reader makes of the dashboard.
    pub open spec fn answered(&self, view: ChatView, asked: Asked, after: App) -> bool {
        let drawn = App { needs_redraw: true, ..*self };
        match asked {
            Asked::Nothing => after == (App { chat: Some(view), ..drawn }),
            Asked::Close => after == (App { chat: None, mode: Mode::List, ..drawn }),
            Asked::Earlier(seq) => {
                &&& after == (App {
                    chat: Some(ChatView { fetching: true, ..view }),
                    effects: after.effects,
                    ..drawn
                })
                &&& after.effects@.len() == self.effects@.len() + 1
                &&& after.effects@.drop_last() == self.effects@
                &&& after.effects@.last() matches crate::app::Effect::FetchChat { key, before }
                &&& key@ == crate::model::key_of(view.session)
                &&& before == Some(seq)
            },
        }
    }

    /// The wheel in the reader, which covers the whole screen and so answers it
    /// wherever the pointer is.
    pub fn on_wheel_conversation(&mut self, up: bool)
        requires
            old(self).chat_wf(),
        ensures
            *final(self) == (App {
                chat: match old(self).chat {
                    Some(view) => Some(
                        if up {
                            view.up(WHEEL as int)
                        } else {
                            view.down(WHEEL as int)
                        },
                    ),
                    None => None,
                },
                ..*old(self)
            }),
            final(self).chat_wf(),
    {
        let mut chat: Option<ChatView> = None;
        std::mem::swap(&mut chat, &mut self.chat);
        match chat {
            Some(view) => {
                let mut view = view;
                if up {
                    view.scroll_up(WHEEL);
                } else {
                    view.scroll_down(WHEEL);
                }
                self.chat = Some(view);
            },
            None => {},
        }
    }
}

proof fn a_hit_of_a_block(b: BlockView, start: int, query: Seq<char>, n: int, i: int)
    requires
        0 <= n <= b.plain.len(),
    ensures
        block_hits(b, start, query, n).contains(start + i) <==> 0 <= i < n && found_from(b.plain[i], query, 0).len() > 0,
    decreases n,
{
    let all = block_hits(b, start, query, n);
    if n > 0 {
        let before = block_hits(b, start, query, n - 1);
        a_hit_of_a_block(b, start, query, n - 1, i);
        if all != before {
            assert(all[before.len() as int] == start + n - 1);
            if before.contains(start + i) {
                let k = choose|k: int| 0 <= k < before.len() && before[k] == start + i;
                assert(all[k] == start + i);
            }
            if all.contains(start + i) {
                let k = choose|k: int| 0 <= k < all.len() && all[k] == start + i;
                if k < before.len() {
                    assert(before[k] == start + i);
                }
            }
        }
    } else {
        assert(all.len() == 0);
    }
}

/// The rows a search finds are exactly those that what is searched for stands on.
pub proof fn a_row_is_found_where_the_query_stands(b: Seq<BlockView>, query: Seq<char>, n: int, k: int, i: int)
    requires
        all_plain(b),
        0 <= n <= b.len(),
        0 <= k < b.len(),
        0 <= i < b[k].plain.len(),
    ensures
        hits_in(b, query, n).contains(rows_before(b, k) + i) <==> k < n && found_from(b[k].plain[i], query, 0).len() > 0,
    decreases n,
{
    let all = hits_in(b, query, n);
    let row = rows_before(b, k) + i;
    if n > 0 {
        let before = hits_in(b, query, n - 1);
        let start = rows_before(b, n - 1) as int;
        let own = block_hits(b[n - 1], start, query, b[n - 1].plain.len() as int);
        a_row_is_found_where_the_query_stands(b, query, n - 1, k, i);
        a_hit_of_a_block(b[n - 1], start, query, b[n - 1].plain.len() as int, row - start);
        assert(all == before + own);
        assert(start + (row - start) == row);
        if before.contains(row) {
            let j = choose|j: int| 0 <= j < before.len() && before[j] == row;
            assert(all[j] == row);
        }
        if own.contains(row) {
            let j = choose|j: int| 0 <= j < own.len() && own[j] == row;
            assert(all[before.len() + j] == row);
        }
        if all.contains(row) {
            let j = choose|j: int| 0 <= j < all.len() && all[j] == row;
            if j < before.len() {
                assert(before[j] == row);
            } else {
                assert(own[j - before.len()] == row);
            }
        }
        assert(b[k].plain.len() == b[k].lines.len());
        assert(b[n - 1].plain.len() == b[n - 1].lines.len());
        if k < n - 1 {
            rows_grow(b, k + 1, n - 1);
        } else if k > n - 1 {
            rows_grow(b, n, k);
        }
    } else {
        assert(all.len() == 0);
    }
}

/// A search lands on the first hit that is not above where it began, and on the first
/// of all where every one is above.
pub proof fn a_search_lands_on_the_next_hit(hits: Seq<u128>, from: int, i: int)
    requires
        0 <= i <= hits.len(),
    ensures
        match hit_from(hits, from, i) {
            Some(k) => i <= k < hits.len() && hits[k] >= from && forall|j: int| i <= j < k ==> #[trigger] hits[j] < from,
            None => forall|j: int| i <= j < hits.len() ==> #[trigger] hits[j] < from,
        },
        hits.len() > 0 && hit_from(hits, from, 0) is None ==> landed_on(hits, from) == Some(0int),
        hits.len() == 0 ==> landed_on(hits, from) is None,
    decreases hits.len() - i,
{
    if i < hits.len() && hits[i] < from {
        a_search_lands_on_the_next_hit(hits, from, i + 1);
    }
}

/// A step on goes to the hit below and from the last one to the first; a step back the
/// other way.
pub proof fn a_step_goes_to_the_hit_below(view: ChatView, i: usize)
    requires
        view.search.current == Some(i),
        i < view.search.hits@.len(),
    ensures
        i + 1 < view.search.hits@.len() ==> view.next_hit(true) == i + 1,
        i + 1 == view.search.hits@.len() ==> view.next_hit(true) == 0,
        i > 0 ==> view.next_hit(false) == i - 1,
        i == 0 ==> view.next_hit(false) == view.search.hits@.len() - 1,
{
    let n = view.search.hits@.len() as int;
    if i + 1 < n {
        vstd::arithmetic::div_mod::lemma_small_mod((i + 1) as nat, n as nat);
    } else {
        vstd::arithmetic::div_mod::lemma_mod_self_0(n);
    }
    if i > 0 {
        vstd::arithmetic::div_mod::lemma_small_mod((i - 1) as nat, n as nat);
        vstd::arithmetic::div_mod::lemma_mod_add_multiples_vanish(i - 1, n);
    } else {
        vstd::arithmetic::div_mod::lemma_small_mod((n - 1) as nat, n as nat);
    }
}

/// Moving up shows rows that are earlier and moving down rows that are later, by as many
/// as was asked for, as far as there are any.
pub proof fn scrolling_goes_the_way_it_says(view: ChatView, rows: int)
    requires
        0 <= rows <= 0x1_0000_0000,
        view.back <= view.lowest(),
        view.back < 0x1_0000_0000_0000_0000,
    ensures
        rows <= view.first() ==> view.up(rows).first() == view.first() - rows,
        rows > view.first() ==> view.up(rows).first() == 0,
        view.first() + rows <= view.lowest() ==> view.down(rows).first() == view.first() + rows,
        view.first() + rows > view.lowest() ==> view.down(rows).first() == view.lowest(),
{
}

/// A row that is shown is in sight.
pub proof fn a_row_shown_is_in_sight(view: ChatView, row: int)
    requires
        0 <= row < view.rows(),
        view.visible > 0,
    ensures
        view.showing(row).first() <= row < view.showing(row).first() + view.visible,
{
}

/// The turn below is the first whose header is below the top, and there is none where
/// no header is.
pub proof fn the_turn_below_is_the_next_header(starts: Seq<u128>, top: int, i: int)
    requires
        0 <= i <= starts.len(),
    ensures
        match ChatView::start_below(starts, top, i) {
            Some(row) => row > top && exists|k: int|
                i <= k < starts.len() && #[trigger] starts[k] == row && forall|j: int| i <= j < k ==> #[trigger] starts[j] <= top,
            None => forall|j: int| i <= j < starts.len() ==> #[trigger] starts[j] <= top,
        },
    decreases starts.len() - i,
{
    if i < starts.len() {
        if starts[i] <= top {
            the_turn_below_is_the_next_header(starts, top, i + 1);
            if let Some(row) = ChatView::start_below(starts, top, i + 1) {
                let k = choose|k: int|
                    i + 1 <= k < starts.len() && #[trigger] starts[k] == row && forall|j: int|
                        i + 1 <= j < k ==> #[trigger] starts[j] <= top;
                assert(starts[k] == row);
                assert(forall|j: int| i <= j < k ==> #[trigger] starts[j] <= top);
            }
        } else {
            assert(starts[i] == ChatView::start_below(starts, top, i)->0);
        }
    }
}

/// The tools that are opened are those of the first turn on screen that has any.
pub proof fn the_first_turn_with_tools_is_opened(laid: Laid, b: int, bottom: int)
    requires
        0 <= b <= laid.blocks@.len(),
        laid.starts@.len() == laid.blocks@.len(),
    ensures
        match ChatView::tools_from(laid, b, bottom) {
            Some(k) => b <= k < laid.blocks@.len() && laid.blocks@[k].has_tools && laid.starts@[k] < bottom && forall|j: int|
                b <= j < k ==> !(#[trigger] laid.blocks@[j]).has_tools,
            None => forall|k: int|
                b <= k < laid.blocks@.len() && (#[trigger] laid.blocks@[k]).has_tools ==> exists|j: int|
                    b <= j <= k && #[trigger] laid.starts@[j] >= bottom,
        },
    decreases laid.blocks@.len() - b,
{
    if b < laid.blocks@.len() && laid.starts@[b] < bottom && !laid.blocks@[b].has_tools {
        the_first_turn_with_tools_is_opened(laid, b + 1, bottom);
    } else if b < laid.blocks@.len() && laid.starts@[b] >= bottom {
        assert forall|k: int| b <= k < laid.blocks@.len() && (#[trigger] laid.blocks@[k]).has_tools implies exists|j: int|
            b <= j <= k && #[trigger] laid.starts@[j] >= bottom by {
            assert(laid.starts@[b] >= bottom);
        }
    }
}

/// The links of a row are those that stand on it, in their order.
pub proof fn a_link_is_on_its_own_row(links: Seq<LinkView>, row: int, n: int)
    requires
        0 <= n <= links.len(),
    ensures
        links_on(links, row, n) == links.take(n).filter(|l: LinkView| l.line == row),
    decreases n,
{
    reveal(Seq::filter);
    if n > 0 {
        a_link_is_on_its_own_row(links, row, n - 1);
        assert(links.take(n).drop_last() =~= links.take(n - 1));
        assert(links.take(n).last() == links[n - 1]);
    } else {
        assert(links_on(links, row, n) =~= links.take(n).filter(|l: LinkView| l.line == row));
    }
}

/// A turn's tools are drawn in full where it was opened and the others are not, and
/// the other way round where all of them are.
pub proof fn a_turn_is_opened_on_its_own(view: ChatView, seq: usize, after: ChatView, other: usize)
    requires
        view.flipped(seq, after),
        other != seq,
    ensures
        after.opens(seq) == !view.opens(seq),
        after.opens(other) == view.opens(other),
{
    assert(after.opened@.contains(seq) <==> (seq == seq) != view.opened@.contains(seq));
    assert(after.opened@.contains(other) <==> (other == seq) != view.opened@.contains(other));
}

proof fn a_kept_block_is_of_its_turn(pool: Seq<BlockView>, seq: Option<usize>)
    ensures
        kept(pool, seq) matches Some(b) ==> b.seq == seq && pool.contains(b),
    decreases pool.len(),
{
    if pool.len() > 0 {
        if pool.last().seq == seq {
            assert(pool[pool.len() - 1] == pool.last());
        } else {
            a_kept_block_is_of_its_turn(pool.drop_last(), seq);
            if let Some(b) = kept(pool.drop_last(), seq) {
                let k = choose|k: int| 0 <= k < pool.len() - 1 && pool.drop_last()[k] == b;
                assert(pool[k] == b);
            }
        }
    }
}

/// Every turn of a conversation has its own block, in the turns' order, and is drawn
/// open or closed as it was asked to be.
pub proof fn every_turn_has_its_block(
    pool: Seq<BlockView>,
    conv: Conversation,
    drawn: Seq<Drawn>,
    width: usize,
    look: Look,
    n: int,
    k: int,
)
    requires
        0 <= k < n <= conv.turns@.len(),
    ensures
        ({
            let blocks = laid_turns(pool, conv, drawn, width, look, n).0;
            let first = if conv.note is Some {
                1int
            } else {
                0
            };
            &&& blocks.len() == first + n
            &&& blocks[first + k].seq == Some(conv.turns@[k].seq)
            &&& blocks[first + k].open == (look.tools_open != look.opened.contains(conv.turns@[k].seq))
        }),
    decreases n,
{
    let (before, left) = laid_turns(pool, conv, drawn, width, look, n - 1);
    let turn = conv.turns@[n - 1];
    a_kept_block_is_of_its_turn(left, Some(turn.seq));
    if n > 1 {
        every_turn_has_its_block(pool, conv, drawn, width, look, n - 1, if k < n - 1 {
            k
        } else {
            0
        });
    } else {
        assert(laid_turns(pool, conv, drawn, width, look, 0).0.len() == if conv.note is Some {
            1int
        } else {
            0
        });
    }
}

/// A key that moves the view moves it the way it points: down shows later rows and up
/// earlier ones, and the ends are the ends.
pub proof fn a_key_moves_the_way_it_points(view: ChatView, key: Key, after: ChatView, asked: Asked)
    requires
        view.pressed(key, after, asked),
        !view.search.typing,
        view.back <= view.lowest(),
        view.back < 0x1_0000_0000_0000_0000,
        view.lowest() < 0x1_0000_0000_0000_0000,
    ensures
        key.code == KeyCode::Down || key.code == KeyCode::Char('j') ==> after.first() == (if view.first()
            < view.lowest() {
            view.first() + 1
        } else {
            view.lowest()
        }),
        key.code == KeyCode::Up || key.code == KeyCode::Char('k') ==> after.first() == (if view.first() > 0 {
            view.first() - 1
        } else {
            0
        }),
        key.code == KeyCode::PageDown || key.code == KeyCode::Char(' ') ==> after.first() >= view.first() && (view.first()
            + view.page() <= view.lowest() ==> after.first() == view.first() + view.page()),
        key.code == KeyCode::PageUp || key.code == KeyCode::Char('b') ==> after.first() <= view.first() && (view.page()
            <= view.first() ==> after.first() == view.first() - view.page()),
        key.code == KeyCode::Home || key.code == KeyCode::Char('g') ==> after.first() == 0,
        key.code == KeyCode::End || key.code == KeyCode::Char('G') ==> after.first() == view.lowest(),
        key.code == KeyCode::Char('q') ==> asked == Asked::Close,
{
}

/// What is laid out again keeps the turn that was at the top there, and the row of it
/// where the turn still has it.
pub proof fn laying_out_again_keeps_the_place(view: ChatView, blocks: Seq<BlockView>, row: int)
    requires
        view.anchored_row(blocks) == Some(row),
        view.anchor() is Some,
        (view.anchor()->0).1 >= 0,
    ensures
        exists|b: int|
            {
                &&& 0 <= b < blocks.len()
                &&& (#[trigger] blocks[b]).seq == (view.anchor()->0).0
                &&& rows_before(blocks, b) <= row
                &&& blocks[b].lines.len() > 0 ==> row < rows_before(blocks, b) + blocks[b].lines.len()
                &&& (view.anchor()->0).1 < blocks[b].lines.len() ==> row == rows_before(blocks, b) + (view.anchor()->0).1
            },
{
    let (seq, offset) = view.anchor()->0;
    a_place_is_of_its_number(blocks, seq, 0);
    let b = place_of(blocks, seq, 0)->0;
    assert(blocks[b].seq == seq);
}

proof fn a_place_is_of_its_number(b: Seq<BlockView>, seq: Option<usize>, i: int)
    requires
        0 <= i <= b.len(),
    ensures
        place_of(b, seq, i) matches Some(k) ==> i <= k < b.len() && b[k].seq == seq,
    decreases b.len() - i,
{
    if i < b.len() && b[i].seq != seq {
        a_place_is_of_its_number(b, seq, i + 1);
    }
}

} // verus!
