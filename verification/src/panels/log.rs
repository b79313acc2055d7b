//! The Tool Activity panel: what the tools were called for, oldest first.

use vstd::prelude::*;

use crate::data::{Delta, Metrics, SessionData, ToolDetail};
use crate::figures::{
    compact_duration, compact_tokens, fixed, pretty_mcp_name, short_path, span_text, tildify, tokens_text, tool_text, with_places,
};
use crate::outside::{moment, moment_of};
use crate::order::{in_order, keys_of, letters, letters_of, lists_each, order_by, sorted, text_before, text_lt};
use crate::styled::{blank, line_of, note, nothing, Ink, Line, LineView, Text};
use crate::text::{
    after_prefix, begins, cat, chars_of, count, cut, dec, decimal, left_in, lines, lines_of, pad_left, pad_right, push_word,
    right_in, same, string_between, trim_start, trimmed_start, truncate, words,
};

verus! {

/// How many entries the sidebar has.
pub open spec fn tab_count(data: SessionData) -> int {
    data.metrics.tools@.len() as int + 1
}

/// What the sidebar's tools are ordered by: how often they were used, and then
/// their names.
pub open spec fn tab_keys(tools: Seq<(String, u64)>) -> Seq<Seq<u64>> {
    tools.map_values(|t: (String, u64)| seq![(u64::MAX - t.1) as u64] + letters(t.0@))
}

/// The sidebar's entry at `i`: every tool at the top, then each on its own.
pub open spec fn tab_at(data: SessionData, i: int) -> (Seq<char>, u64) {
    if i == 0 {
        ("All"@, data.metrics.tool_count)
    } else {
        let t = data.metrics.tools@[sorted(tab_keys(data.metrics.tools@), true)[i - 1] as int];
        (t.0@, t.1)
    }
}

/// Tool names for the sidebar, most-used first, with an "All" entry first.
pub fn tool_tabs(data: &SessionData) -> (r: Vec<(String, u64)>)
    ensures
        r@.len() == tab_count(*data),
        forall|i: int| 0 <= i < r@.len() ==> ((#[trigger] r@[i]).0@, r@[i].1) == tab_at(*data, i),
{
    let tools = &data.metrics.tools;
    let mut keys: Vec<Vec<u64>> = Vec::new();
    let mut i: usize = 0;
    while i < tools.len()
        invariant
            i <= tools@.len(),
            keys@.len() == i,
            forall|j: int|
                0 <= j < i ==> (#[trigger] keys@[j])@ == seq![(u64::MAX - tools@[j].1) as u64] + letters(tools@[j].0@),
        decreases tools@.len() - i,
    {
        let mut key: Vec<u64> = Vec::new();
        key.push(u64::MAX - tools[i].1);
        let mut name = letters_of(tools[i].0.as_str());
        key.append(&mut name);
        assert(key@ =~= seq![(u64::MAX - tools@[i as int].1) as u64] + letters(tools@[i as int].0@));
        keys.push(key);
        i += 1;
    }
    assert(keys_of(keys@) =~= tab_keys(tools@));
    let order = order_by(&keys, true);
    let mut out: Vec<(String, u64)> = Vec::new();
    out.push(("All".to_owned(), data.metrics.tool_count));
    let mut k: usize = 0;
    while k < order.len()
        invariant
            k <= order@.len(),
            tools == &data.metrics.tools,
            lists_each(order@, tools@.len() as int),
            order@ == sorted(tab_keys(data.metrics.tools@), true),
            out@.len() == k + 1,
            forall|j: int| 0 <= j < out@.len() ==> ((#[trigger] out@[j]).0@, out@[j].1) == tab_at(*data, j),
        decreases order@.len() - k,
    {
        let at: usize = order[k];
        out.push((tools[at].0.clone(), tools[at].1));
        k += 1;
    }
    out
}

/// In the sidebar no tool stands above one that was used more often, and of
/// those used equally often they stand by name.
pub proof fn the_sidebar_is_by_use(data: SessionData, i: int, j: int)
    requires
        data.metrics.tools@.len() <= usize::MAX,
        1 <= i < j < tab_count(data),
    ensures
        tab_at(data, i).1 >= tab_at(data, j).1,
        tab_at(data, i).1 == tab_at(data, j).1 ==> !text_before(tab_at(data, j).0, tab_at(data, i).0),
{
    let tools = data.metrics.tools@;
    let keys = tab_keys(tools);
    let order = sorted(keys, true);
    crate::order::every_row_has_its_place(keys, true);
    let (p, q) = (order[i - 1] as int, order[j - 1] as int);
    let (a, b) = (keys[p], keys[q]);
    assert(a == seq![(u64::MAX - tools[p].1) as u64] + letters(tools[p].0@));
    assert(b == seq![(u64::MAX - tools[q].1) as u64] + letters(tools[q].0@));
    assert(a.skip(1) =~= letters(tools[p].0@));
    assert(b.skip(1) =~= letters(tools[q].0@));
    if tools[p].1 == tools[q].1 && text_before(tools[q].0@, tools[p].0@) {
        if crate::order::lex_lt(a, b) {
            crate::order::text_transitive(tools[q].0@, tools[p].0@, tools[q].0@);
            crate::order::text_irreflexive(tools[q].0@);
        } else {
            assert(a == b);
            assert(letters(tools[p].0@) == letters(tools[q].0@));
            crate::order::lex_irreflexive(letters(tools[p].0@));
        }
    }
}

/// Identity of one invocation.
pub open spec fn detail_name(d: ToolDetail) -> Seq<char> {
    match d.id {
        Some(id) => id@,
        None => d.ts@ + "|"@ + d.d@,
    }
}

/// Stable identity for one invocation, so that an expanded row survives the log
/// growing beneath it.
pub fn detail_key(d: &ToolDetail) -> (r: String)
    ensures
        r@ == detail_name(*d),
{
    match &d.id {
        Some(id) => id.clone(),
        None => {
            let mut s = cat(d.ts.as_str(), "|");
            s.append(d.d.as_str());
            s
        },
    }
}

/// Where the last blank among the first `n` characters of `s` stands, -1 where
/// there is none.
pub open spec fn last_blank(s: Seq<char>, n: int) -> int
    decreases n,
{
    if n <= 0 {
        -1
    } else if s[n - 1] == ' ' {
        n - 1
    } else {
        last_blank(s, n - 1)
    }
}

/// Where a line that is longer than `width` is cut: at the last blank that fits, or
/// at the width where one word is longer than the whole line. Where the only blank
/// is the first character, as many bytes stay as the width, as far as they are whole
/// characters.
pub open spec fn cut_at(s: Seq<char>, width: int) -> int {
    let blank = last_blank(s, width + 1);
    if blank > 0 {
        blank
    } else if blank == 0 {
        byte_head(s, width).len() as int
    } else {
        width
    }
}

proof fn byte_head_bounds(s: Seq<char>, room: int)
    requires
        room >= 0,
    ensures
        byte_head(s, room).len() <= room,
        byte_head(s, room).len() <= s.len(),
        s.len() > 0 && byte_len(s[0]) <= room ==> byte_head(s, room).len() >= 1,
    decreases s.len(),
{
    if s.len() > 0 && byte_len(s[0]) <= room {
        byte_head_bounds(s.skip(1), room - byte_len(s[0]));
    }
}

proof fn blank_found(s: Seq<char>, n: int)
    ensures
        last_blank(s, n) >= 0 ==> s[last_blank(s, n)] == ' ',
    decreases n,
{
    if n > 0 && s[n - 1] != ' ' {
        blank_found(s, n - 1);
    }
}

proof fn cut_bounds(s: Seq<char>, width: int)
    requires
        0 < width < s.len(),
    ensures
        1 <= cut_at(s, width) <= width,
{
    blank_bounds(s, width + 1);
    blank_found(s, width + 1);
    byte_head_bounds(s, width);
}

proof fn blank_bounds(s: Seq<char>, n: int)
    ensures
        -1 <= last_blank(s, n) < n || n <= 0,
        n <= 0 ==> last_blank(s, n) == -1,
    decreases n,
{
    if n > 0 && s[n - 1] != ' ' {
        blank_bounds(s, n - 1);
    }
}

/// Text is not longer without the white space before it.
pub proof fn trimming_shortens(s: Seq<char>)
    ensures
        trimmed_start(s).len() <= s.len(),
    decreases s.len(),
{
    if s.len() > 0 && crate::text::white(s[0]) {
        trimming_shortens(s.skip(1));
    }
}

/// One line, wrapped to `width`.
pub open spec fn wrapped_line(s: Seq<char>, width: int) -> Seq<Seq<char>>
    decreases s.len(),
{
    let at = cut_at(s, width);
    if width <= 0 || s.len() <= width || at <= 0 || at > s.len() {
        seq![s]
    } else {
        proof {
            trimming_shortens(s.skip(at));
        }
        seq![s.take(at)] + wrapped_line(trimmed_start(s.skip(at)), width)
    }
}

/// The first `n` of `lines`, wrapped to `width`.
pub open spec fn wrapped_lines(lines: Seq<Seq<char>>, width: int, n: int) -> Seq<Seq<char>>
    decreases n,
{
    if n <= 0 {
        Seq::empty()
    } else {
        wrapped_lines(lines, width, n - 1) + wrapped_line(lines[n - 1], width)
    }
}

/// `text`, each of its lines wrapped to `width`.
pub open spec fn wrapped(text: Seq<char>, width: int) -> Seq<Seq<char>> {
    wrapped_lines(lines_of(text), width, lines_of(text).len() as int)
}

proof fn a_piece_fits(s: Seq<char>, width: int, i: int)
    requires
        width > 0,
        0 <= i < wrapped_line(s, width).len(),
    ensures
        wrapped_line(s, width)[i].len() <= width,
    decreases s.len(),
{
    let at = cut_at(s, width);
    if s.len() > width {
        cut_bounds(s, width);
        let rest = trimmed_start(s.skip(at));
        trimming_shortens(s.skip(at));
        if i > 0 {
            a_piece_fits(rest, width, i - 1);
            assert(wrapped_line(s, width)[i] == wrapped_line(rest, width)[i - 1]);
        }
    }
}

proof fn a_line_of_the_first_fits(lines: Seq<Seq<char>>, width: int, n: int, i: int)
    requires
        width > 0,
        0 <= n <= lines.len(),
        0 <= i < wrapped_lines(lines, width, n).len(),
    ensures
        wrapped_lines(lines, width, n)[i].len() <= width,
    decreases n,
{
    if n > 0 {
        let before = wrapped_lines(lines, width, n - 1);
        if i < before.len() {
            a_line_of_the_first_fits(lines, width, n - 1, i);
        } else {
            a_piece_fits(lines[n - 1], width, i - before.len());
        }
    }
}

/// No line of wrapped text is longer than it was to be.
pub proof fn a_wrapped_line_fits(text: Seq<char>, width: int, i: int)
    requires
        width > 0,
        0 <= i < wrapped(text, width).len(),
    ensures
        wrapped(text, width)[i].len() <= width,
{
    a_line_of_the_first_fits(lines_of(text), width, lines_of(text).len() as int, i);
}

/// The characters of a text that are not white space.
pub open spec fn visible(s: Seq<char>) -> Seq<char> {
    s.filter(|c: char| !crate::text::white(c))
}

/// Pieces of text, one behind the other.
pub open spec fn glued(v: Seq<Seq<char>>) -> Seq<char>
    decreases v.len(),
{
    if v.len() == 0 {
        Seq::empty()
    } else {
        v[0] + glued(v.skip(1))
    }
}

proof fn trimming_hides_nothing(s: Seq<char>)
    ensures
        visible(trimmed_start(s)) == visible(s),
    decreases s.len(),
{
    if s.len() > 0 && crate::text::white(s[0]) {
        let seen = |c: char| !crate::text::white(c);
        let first = seq![s[0]];
        trimming_hides_nothing(s.skip(1));
        assert(s =~= first + s.skip(1));
        Seq::filter_distributes_over_add(first, s.skip(1), seen);
        assert(first.filter(seen) =~= Seq::<char>::empty()) by {
            reveal_with_fuel(Seq::filter, 2);
            assert(first.drop_last() =~= Seq::<char>::empty());
            assert(first.last() == s[0]);
            assert(!seen(s[0]));
        }
        assert(visible(s) =~= visible(s.skip(1)));
    }
}

/// Wrapping a line loses nothing of it but white space, and changes the order of
/// nothing.
pub proof fn wrapping_loses_only_blanks(s: Seq<char>, width: int)
    ensures
        visible(glued(wrapped_line(s, width))) == visible(s),
    decreases s.len(),
{
    let at = cut_at(s, width);
    let all = wrapped_line(s, width);
    reveal_with_fuel(glued, 2);
    if width <= 0 || s.len() <= width || at <= 0 || at > s.len() {
        assert(all.skip(1) =~= Seq::<Seq<char>>::empty());
        assert(glued(all) =~= s);
    } else {
        let seen = |c: char| !crate::text::white(c);
        let rest = trimmed_start(s.skip(at));
        trimming_shortens(s.skip(at));
        wrapping_loses_only_blanks(rest, width);
        trimming_hides_nothing(s.skip(at));
        assert(all.skip(1) =~= wrapped_line(rest, width));
        assert(glued(all) =~= s.take(at) + glued(wrapped_line(rest, width)));
        Seq::filter_distributes_over_add(s.take(at), glued(wrapped_line(rest, width)), seen);
        assert(s =~= s.take(at) + s.skip(at));
        Seq::filter_distributes_over_add(s.take(at), s.skip(at), seen);
    }
}

/// Whether `text` can be wrapped to `width`: in no columns only empty lines can.
pub open spec fn flows(text: Seq<char>, width: int) -> bool {
    width > 0 || forall|i: int| 0 <= i < lines_of(text).len() ==> (#[trigger] lines_of(text)[i]).len() == 0
}

fn wrap_line(line: &str, width: usize, out: &mut Vec<String>)
    requires
        width > 0 || line@.len() == 0,
    ensures
        words(final(out)@) == words(old(out)@) + wrapped_line(line@, width as int),
{
    let mut rest = line.to_owned();
    let ghost was = words(out@);
    assert(was + wrapped_line(line@, width as int) =~= words(out@) + wrapped_line(rest@, width as int));
    let mut left: usize = count(rest.as_str());
    while left > width
        invariant
            width > 0 || rest@.len() == 0,
            left == rest@.len(),
            words(out@) + wrapped_line(rest@, width as int) == was + wrapped_line(line@, width as int),
        decreases left,
    {
        let v = chars_of(rest.as_str());
        let mut at: usize = width + 1;
        while at > 0 && v[at - 1] != ' '
            invariant
                at <= width + 1 <= v@.len(),
                last_blank(v@, width + 1) == last_blank(v@, at as int),
            decreases at,
        {
            at -= 1;
        }
        proof {
            blank_bounds(v@, at as int);
            cut_bounds(v@, width as int);
        }
        let place: usize = if at > 1 {
            at - 1
        } else if at == 1 {
            whole_in(&v, width)
        } else {
            width
        };
        proof {
            trimming_shortens(v@.skip(place as int));
        }
        assert(place == cut_at(rest@, width as int));
        let first = string_between(&v, 0, place);
        assert(first@ =~= rest@.take(place as int));
        let more = string_between(&v, place, v.len());
        assert(more@ =~= rest@.skip(place as int));
        let ghost before = words(out@);
        let ghost tail = wrapped_line(trimmed_start(rest@.skip(place as int)), width as int);
        assert(wrapped_line(rest@, width as int) == seq![first@] + tail);
        let ghost one = first@;
        push_word(out, first);
        rest = trim_start(more.as_str());
        left = count(rest.as_str());
        assert(words(out@) + tail =~= before + (seq![one] + tail));
    }
    let ghost before = words(out@);
    let ghost one = rest@;
    push_word(out, rest);
    assert(words(out@) =~= before + seq![one]);
}

/// Wrap text to `width`, breaking on the last blank that fits.
pub fn wrap(text: &str, width: usize) -> (r: Vec<String>)
    requires
        flows(text@, width as int),
    ensures
        words(r@) == wrapped(text@, width as int),
{
    let all = lines(text);
    let mut out: Vec<String> = Vec::new();
    let mut i: usize = 0;
    assert(words(out@) =~= Seq::<Seq<char>>::empty());
    while i < all.len()
        invariant
            i <= all@.len(),
            flows(text@, width as int),
            words(all@) == lines_of(text@),
            words(out@) == wrapped_lines(lines_of(text@), width as int, i as int),
        decreases all@.len() - i,
    {
        assert(words(all@)[i as int] == all@[i as int]@);
        assert(lines_of(text@)[i as int] == all@[i as int]@);
        wrap_line(all[i].as_str(), width, &mut out);
        i += 1;
    }
    assert(words(all@).len() == all@.len());
    out
}

/// A duration in milliseconds. Below a second milliseconds read better.
pub open spec fn millis_text(ms: int) -> Seq<char> {
    if ms < 0 {
        "-"@ + dec((-ms) as nat) + "ms"@
    } else if ms < 1000 {
        dec(ms as nat) + "ms"@
    } else if ms < 60_000 {
        fixed(ms as nat, 1000, 10, 1) + "s"@
    } else {
        span_text(ms as nat)
    }
}

/// A duration in milliseconds. Below a second milliseconds read better.
pub fn fmt_millis(ms: i64) -> (r: String)
    ensures
        r@ == millis_text(ms as int),
{
    if ms < 0 {
        let mut s = cat("-", decimal((-(ms as i128)) as u128).as_str());
        s.append("ms");
        s
    } else if ms < 1000 {
        cat(decimal(ms as u128).as_str(), "ms")
    } else if ms < 60_000 {
        cat(with_places(ms as u128, 1000, 10, 1).as_str(), "s")
    } else {
        compact_duration(ms as u128)
    }
}

/// What the log is drawn with.
#[derive(Clone, Copy)]
pub struct LogView<'a> {
    /// Entries before this timestamp are left out.
    pub live_since: Option<&'a str>,
    pub show_diff: bool,
    /// The invocation shown in full.
    pub expanded: Option<&'a str>,
    pub width: usize,
    pub home: &'a str,
}

/// Whether the invocation is shown in full.
pub open spec fn is_open(d: ToolDetail, view: LogView) -> bool {
    view.expanded is Some && view.expanded->0@ == detail_name(d)
}

/// How many bytes a character takes up.
pub open spec fn byte_len(c: char) -> int {
    if (c as u32) < 0x80 {
        1
    } else if (c as u32) < 0x800 {
        2
    } else if (c as u32) < 0x1_0000 {
        3
    } else {
        4
    }
}

/// The characters of `s` that stand whole in its first `room` bytes.
pub open spec fn byte_head(s: Seq<char>, room: int) -> Seq<char>
    decreases s.len(),
{
    if s.len() == 0 || byte_len(s[0]) > room {
        Seq::empty()
    } else {
        seq![s[0]] + byte_head(s.skip(1), room - byte_len(s[0]))
    }
}

/// Who made a call: the session itself, or one of its subagents, by the first six
/// bytes of its id.
pub open spec fn origin_text(origin: Option<String>) -> Seq<char> {
    match origin {
        None => "main"@,
        Some(agent) => "↳"@ + byte_head(
            if begins(agent@, "agent-"@) {
                agent@.skip("agent-"@.len() as int)
            } else {
                agent@
            },
            6,
        ),
    }
}

fn whole_in(v: &Vec<char>, bytes: usize) -> (n: usize)
    ensures
        n <= v@.len(),
        byte_head(v@, bytes as int) == v@.take(n as int),
{
    let mut n: usize = 0;
    let mut room: usize = bytes;
    assert(v@.skip(0) =~= v@);
    assert(v@.take(0) + byte_head(v@, bytes as int) =~= byte_head(v@, bytes as int));
    while n < v.len() && width_of(v[n]) <= room
        invariant
            n <= v@.len(),
            byte_head(v@, bytes as int) == v@.take(n as int) + byte_head(v@.skip(n as int), room as int),
        decreases v@.len() - n,
    {
        proof {
            let rest = v@.skip(n as int);
            assert(rest.skip(1) =~= v@.skip(n + 1));
            let left = byte_head(rest.skip(1), room - byte_len(rest[0]));
            assert(v@.take(n as int) + (seq![rest[0]] + left) =~= v@.take(n + 1) + left);
        }
        room = room - width_of(v[n]);
        n += 1;
    }
    assert(byte_head(v@.skip(n as int), room as int) =~= Seq::empty());
    assert(v@.take(n as int) + Seq::<char>::empty() =~= v@.take(n as int));
    n
}

fn width_of(c: char) -> (r: usize)
    ensures
        r == byte_len(c),
{
    let n: u32 = c as u32;
    if n < 0x80 {
        1
    } else if n < 0x800 {
        2
    } else if n < 0x1_0000 {
        3
    } else {
        4
    }
}

fn origin_of(origin: &Option<String>) -> (r: String)
    ensures
        r@ == origin_text(*origin),
{
    match origin {
        None => "main".to_owned(),
        Some(agent) => {
            let short = match after_prefix(agent.as_str(), "agent-") {
                Some(rest) => rest,
                None => agent.clone(),
            };
            let v = chars_of(short.as_str());
            let n: usize = whole_in(&v, 6);
            let first = string_between(&v, 0, n);
            assert(first@ =~= byte_head(short@, 6));
            cat("↳", first.as_str())
        },
    }
}

/// What stands at the right of an entry: lines, time and tokens.
pub open spec fn trailing(d: ToolDetail) -> LineView {
    let l = match d.delta {
        Some(delta) => blank().with(" +"@ + dec(delta.added as nat), Ink::Low).with(
            " -"@ + dec(delta.removed as nat),
            Ink::High,
        ),
        None => blank(),
    };
    let l = match d.dur_ms {
        Some(ms) => l.with(" "@ + right_in(millis_text(ms as int), 7), Ink::Dim),
        None => l,
    };
    if d.tokens_in > 0 || d.tokens_out > 0 {
        l.with(
            (if d.shared > 1 {
                "*"@
            } else {
                " "@
            }) + "↓"@ + right_in(tokens_text(d.tokens_in as nat), 6) + " ↑"@ + right_in(
                tokens_text(d.tokens_out as nat),
                5,
            ),
            Ink::Dim,
        )
    } else {
        l
    }
}

fn trailing_of(d: &ToolDetail) -> (r: Line)
    ensures
        r@ == trailing(*d),
{
    let mut l = Line::new();
    match &d.delta {
        Some(delta) => {
            l.put(cat(" +", decimal(delta.added as u128).as_str()).as_str(), Ink::Low);
            l.put(cat(" -", decimal(delta.removed as u128).as_str()).as_str(), Ink::High);
        },
        None => {},
    }
    match d.dur_ms {
        Some(ms) => {
            l.put(cat(" ", pad_left(fmt_millis(ms).as_str(), 7).as_str()).as_str(), Ink::Dim);
        },
        None => {},
    }
    if d.tokens_in > 0 || d.tokens_out > 0 {
        let mut s = cat(if d.shared > 1 { "*" } else { " " }, "↓");
        s.append(pad_left(compact_tokens(d.tokens_in as u128).as_str(), 6).as_str());
        s.append(" ↑");
        s.append(pad_left(compact_tokens(d.tokens_out as u128).as_str(), 5).as_str());
        l.put(s.as_str(), Ink::Dim);
    }
    l
}

/// How many cells an entry's detail gets: what the other columns leave of the
/// width, and eight at the least.
pub open spec fn detail_width(tool: Seq<char>, d: ToolDetail, all: bool, width: int) -> int {
    let used = 14 + (if all {
        tool_text(tool).len() as int + 1
    } else {
        0
    });
    let left = width - used - trailing(d).words().len();
    if left < 8 {
        8
    } else {
        left
    }
}

/// A row, washed where the call failed.
pub open spec fn washed(failed: bool) -> LineView {
    LineView { spans: Seq::empty(), failed, selected: false }
}

fn washed_line(failed: bool) -> (r: Line)
    ensures
        r@ == washed(failed),
{
    let r = Line { spans: Vec::new(), failed, selected: false };
    assert(r@.spans =~= Seq::<crate::styled::SpanView>::empty());
    r
}

/// An entry's own line. The gap after the time doubles as a mark of failure, so
/// that a failed call is legible without the wash.
pub open spec fn entry_line(tool: Seq<char>, d: ToolDetail, all: bool, view: LogView) -> LineView {
    let w = detail_width(tool, d, all, view.width as int);
    let l = washed(d.failed).with(
        if moment(d.ts@) is Some {
            d.clock@
        } else {
            "     "@
        },
        Ink::Dim,
    );
    let l = if d.failed {
        l.with("✗"@, Ink::High)
    } else {
        l.with(" "@, Ink::Plain)
    };
    let l = l.with(
        left_in(origin_text(d.origin), 7) + " "@,
        if d.origin is Some {
            Ink::DesktopCode
        } else {
            Ink::Dimmer
        },
    );
    let l = if all {
        l.with(tool_text(tool) + " "@, Ink::Tool)
    } else {
        l
    };
    l.with(left_in(cut(short_path(d.d@, view.home@), w), w), Ink::Value).then_line(trailing(d))
}

fn entry_line_of(tool: &str, d: &ToolDetail, all: bool, view: &LogView) -> (r: Line)
    ensures
        r@ == entry_line(tool@, *d, all, *view),
{
    let mut l = washed_line(d.failed);
    if moment_of(d.ts.as_str()).is_some() {
        l.put(d.clock.as_str(), Ink::Dim);
    } else {
        l.put("     ", Ink::Dim);
    }
    if d.failed {
        l.put("✗", Ink::High);
    } else {
        l.put(" ", Ink::Plain);
    }
    let tag = cat(pad_right(origin_of(&d.origin).as_str(), 7).as_str(), " ");
    l.put(tag.as_str(), if d.origin.is_some() { Ink::DesktopCode } else { Ink::Dimmer });
    let mut right = trailing_of(d);
    let mut w: usize = view.width.saturating_sub(14);
    if all {
        let pretty = pretty_mcp_name(tool);
        w = w.saturating_sub(1).saturating_sub(count(pretty.as_str()));
        l.put(cat(pretty.as_str(), " ").as_str(), Ink::Tool);
    }
    w = w.saturating_sub(count(right.words().as_str()));
    if w < 8 {
        w = 8;
    }
    assert(w == detail_width(tool@, *d, all, view.width as int));
    let text = tildify(d.d.as_str(), view.home);
    l.put(pad_right(truncate(text.as_str(), w).as_str(), w).as_str(), Ink::Value);
    l.append(&mut right);
    l
}

/// The untruncated argument of an open entry.
pub open spec fn full_lines(texts: Seq<Seq<char>>, failed: bool, n: int) -> Seq<LineView>
    decreases n,
{
    if n <= 0 {
        nothing()
    } else {
        full_lines(texts, failed, n - 1).push(
            washed(failed).with("        "@, Ink::Plain).with(texts[n - 1], Ink::Gray(252)),
        )
    }
}

/// The ink of a line of a diff.
pub open spec fn hunk_ink(hunk: Seq<char>) -> Ink {
    if hunk.len() > 0 && hunk[0] == '+' {
        Ink::Low
    } else if hunk.len() > 0 && hunk[0] == '-' {
        Ink::High
    } else {
        Ink::Dimmer
    }
}

/// The first `n` lines of an edit's diff.
pub open spec fn hunk_lines(hunks: Seq<String>, width: int, n: int) -> Seq<LineView>
    decreases n,
{
    if n <= 0 {
        nothing()
    } else {
        hunk_lines(hunks, width, n - 1).push(
            blank().with("        "@, Ink::Plain).with(
                cut(
                    hunks[n - 1]@,
                    if width < 9 {
                        0
                    } else {
                        width - 9
                    },
                ),
                hunk_ink(hunks[n - 1]@),
            ),
        )
    }
}

/// What is shown in full of an entry.
pub open spec fn full_text(d: ToolDetail) -> Seq<char> {
    match d.full {
        Some(f) => f@,
        None => d.d@,
    }
}

/// The columns an invocation shown in full is wrapped to.
pub open spec fn room_inside(view: LogView) -> int {
    if view.width < 10 {
        0
    } else {
        view.width - 10
    }
}

/// Every line an entry takes up.
pub open spec fn entry_lines(tool: Seq<char>, d: ToolDetail, all: bool, view: LogView) -> Seq<LineView> {
    let t = nothing().push(entry_line(tool, d, all, view));
    let texts = wrapped(full_text(d), room_inside(view));
    let t = if is_open(d, view) {
        t + full_lines(texts, d.failed, texts.len() as int)
    } else {
        t
    };
    match d.delta {
        Some(delta) => if view.show_diff {
            t + hunk_lines(delta.hunks@, view.width as int, delta.hunks@.len() as int)
        } else {
            t
        },
        None => t,
    }
}

/// Whether there are columns for every invocation that is shown in full.
pub open spec fn opens(details: Seq<(String, Vec<ToolDetail>)>, view: LogView) -> bool {
    forall|a: int, b: int|
        0 <= a < details.len() && 0 <= b < details[a].1@.len() && is_open(#[trigger] details[a].1@[b], view) ==> flows(
            full_text(details[a].1@[b]),
            room_inside(view),
        )
}

fn entry(tool: &str, d: &ToolDetail, all: bool, view: &LogView) -> (r: Text)
    requires
        is_open(*d, *view) ==> flows(full_text(*d), room_inside(*view)),
    ensures
        r@ == entry_lines(tool@, *d, all, *view),
{
    let mut t = Text::new();
    t.push(entry_line_of(tool, d, all, view));
    let open = match view.expanded {
        Some(key) => same(key, detail_key(d).as_str()),
        None => false,
    };
    if open {
        let texts = match &d.full {
            Some(f) => wrap(f.as_str(), view.width.saturating_sub(10)),
            None => wrap(d.d.as_str(), view.width.saturating_sub(10)),
        };
        let ghost was = t@;
        let ghost says = words(texts@);
        let mut i: usize = 0;
        assert(was + full_lines(says, d.failed, 0) =~= was);
        while i < texts.len()
            invariant
                i <= texts@.len(),
                says == words(texts@),
                t@ == was + full_lines(says, d.failed, i as int),
            decreases texts@.len() - i,
        {
            let mut l = washed_line(d.failed);
            l.put("        ", Ink::Plain);
            l.put(texts[i].as_str(), Ink::Gray(252));
            assert(says[i as int] == texts@[i as int]@);
            t.push(l);
            assert(t@ =~= was + full_lines(says, d.failed, i + 1));
            i += 1;
        }
        assert(says.len() == texts@.len());
    }
    match &d.delta {
        Some(delta) => {
            if view.show_diff {
                let ghost was = t@;
                let mut i: usize = 0;
                assert(was + hunk_lines(delta.hunks@, view.width as int, 0) =~= was);
                while i < delta.hunks.len()
                    invariant
                        i <= delta.hunks@.len(),
                        t@ == was + hunk_lines(delta.hunks@, view.width as int, i as int),
                    decreases delta.hunks@.len() - i,
                {
                    let hunk = delta.hunks[i].as_str();
                    let v = chars_of(hunk);
                    let ink = if v.len() > 0 && v[0] == '+' {
                        Ink::Low
                    } else if v.len() > 0 && v[0] == '-' {
                        Ink::High
                    } else {
                        Ink::Dimmer
                    };
                    let mut l = Line::new();
                    l.put("        ", Ink::Plain);
                    l.put(truncate(hunk, view.width.saturating_sub(9)).as_str(), ink);
                    t.push(l);
                    assert(t@ =~= was + hunk_lines(delta.hunks@, view.width as int, i + 1));
                    i += 1;
                }
            }
        },
        None => {},
    }
    t
}

/// Of one tool's first `n` entries, those not before `since`, as the tool's place
/// and their own.
pub open spec fn from_tool(details: Seq<ToolDetail>, at: int, since: Option<&str>, n: int) -> Seq<(int, int)>
    decreases n,
{
    if n <= 0 {
        Seq::empty()
    } else {
        let before = from_tool(details, at, since, n - 1);
        if since is Some && text_before(details[n - 1].ts@, since->0@) {
            before
        } else {
            before.push((at, n - 1))
        }
    }
}

/// The entries of the first `n` tools, or of one, that are not before `since`.
pub open spec fn picked(
    details: Seq<(String, Vec<ToolDetail>)>,
    only: Option<Seq<char>>,
    since: Option<&str>,
    n: int,
) -> Seq<(int, int)>
    decreases n,
{
    if n <= 0 {
        Seq::empty()
    } else {
        let before = picked(details, only, since, n - 1);
        let (name, list) = details[n - 1];
        if only is Some && name@ != only->0 {
            before
        } else {
            before + from_tool(list@, n - 1, since, list@.len() as int)
        }
    }
}

/// Whether every place is one of an entry there is.
pub open spec fn places(details: Seq<(String, Vec<ToolDetail>)>, rows: Seq<(int, int)>) -> bool {
    forall|i: int|
        0 <= i < rows.len() ==> 0 <= (#[trigger] rows[i]).0 < details.len() && 0 <= rows[i].1
            < details[rows[i].0].1@.len()
}

/// Places as numbers.
pub open spec fn places_of(rows: Seq<(usize, usize)>) -> Seq<(int, int)> {
    rows.map_values(|r: (usize, usize)| (r.0 as int, r.1 as int))
}

fn pick(details: &Vec<(String, Vec<ToolDetail>)>, only: Option<&str>, since: Option<&str>) -> (r: Vec<(usize, usize)>)
    ensures
        places_of(r@) == picked(
            details@,
            match only {
                Some(name) => Some(name@),
                None => None,
            },
            since,
            details@.len() as int,
        ),
        places(details@, places_of(r@)),
{
    let ghost one = match only {
        Some(name) => Some(name@),
        None => None,
    };
    let mut rows: Vec<(usize, usize)> = Vec::new();
    let mut i: usize = 0;
    assert(places_of(rows@) =~= Seq::<(int, int)>::empty());
    while i < details.len()
        invariant
            i <= details@.len(),
            one == (match only {
                Some(name) => Some(name@),
                None => None,
            }),
            places_of(rows@) == picked(details@, one, since, i as int),
            places(details@, places_of(rows@)),
        decreases details@.len() - i,
    {
        let ghost before = places_of(rows@);
        let wanted = match only {
            Some(name) => same(details[i].0.as_str(), name),
            None => true,
        };
        if wanted {
            let list = &details[i].1;
            let mut k: usize = 0;
            assert(before + from_tool(list@, i as int, since, 0) =~= before);
            while k < list.len()
                invariant
                    i < details@.len(),
                    list == &details@[i as int].1,
                    k <= list@.len(),
                    places_of(rows@) == before + from_tool(list@, i as int, since, k as int),
                    places(details@, places_of(rows@)),
                decreases list@.len() - k,
            {
                let late = match since {
                    Some(at) => !text_lt(list[k].ts.as_str(), at),
                    None => true,
                };
                if late {
                    let ghost was = rows@;
                    rows.push((i, k));
                    assert(places_of(rows@) =~= places_of(was).push((i as int, k as int)));
                    assert(places_of(rows@) =~= before + from_tool(list@, i as int, since, k + 1));
                }
                k += 1;
            }
        }
        i += 1;
    }
    rows
}

/// What the entries are ordered by: when they were made.
pub open spec fn time_keys(details: Seq<(String, Vec<ToolDetail>)>, rows: Seq<(int, int)>) -> Seq<Seq<u64>> {
    rows.map_values(|r: (int, int)| letters(details[r.0].1@[r.1].ts@))
}

fn by_time(details: &Vec<(String, Vec<ToolDetail>)>, rows: &Vec<(usize, usize)>) -> (r: Vec<usize>)
    requires
        places(details@, places_of(rows@)),
    ensures
        lists_each(r@, rows@.len() as int),
        r@ == sorted(time_keys(details@, places_of(rows@)), true),
{
    let mut keys: Vec<Vec<u64>> = Vec::new();
    let mut i: usize = 0;
    let ghost at = places_of(rows@);
    while i < rows.len()
        invariant
            i <= rows@.len(),
            at == places_of(rows@),
            places(details@, at),
            keys@.len() == i,
            forall|j: int|
                0 <= j < i ==> (#[trigger] keys@[j])@ == letters(details@[at[j].0].1@[at[j].1].ts@),
        decreases rows@.len() - i,
    {
        let row: (usize, usize) = rows[i];
        assert(at[i as int] == (row.0 as int, row.1 as int));
        keys.push(letters_of(details[row.0].1[row.1].ts.as_str()));
        i += 1;
    }
    assert(keys_of(keys@) =~= time_keys(details@, at));
    order_by(&keys, true)
}

/// The lines of the first `n` entries that `order` lists.
pub open spec fn log_lines(
    details: Seq<(String, Vec<ToolDetail>)>,
    rows: Seq<(int, int)>,
    order: Seq<usize>,
    all: bool,
    view: LogView,
    n: int,
) -> Seq<LineView>
    decreases n,
{
    if n <= 0 {
        nothing()
    } else {
        let (t, k) = rows[order[n - 1] as int];
        log_lines(details, rows, order, all, view, n - 1) + entry_lines(details[t].0@, details[t].1@[k], all, view)
    }
}

/// The invocation each of those lines belongs to.
pub open spec fn log_owners(
    details: Seq<(String, Vec<ToolDetail>)>,
    rows: Seq<(int, int)>,
    order: Seq<usize>,
    all: bool,
    view: LogView,
    n: int,
) -> Seq<Option<Seq<char>>>
    decreases n,
{
    if n <= 0 {
        Seq::empty()
    } else {
        let (t, k) = rows[order[n - 1] as int];
        let d = details[t].1@[k];
        log_owners(details, rows, order, all, view, n - 1) + Seq::new(
            entry_lines(details[t].0@, d, all, view).len(),
            |i: int| Some(detail_name(d)),
        )
    }
}

/// What the owners say.
pub open spec fn owners_of(owners: Seq<Option<String>>) -> Seq<Option<Seq<char>>> {
    owners.map_values(
        |o: Option<String>|
            match o {
                Some(s) => Some(s@),
                None => None,
            },
    )
}

/// Which tool the log is of, where it is of one.
pub open spec fn only_tool(data: SessionData, tab: int) -> Option<Seq<char>> {
    if tab == 0 {
        None
    } else {
        Some(tab_at(data, tab).0)
    }
}

/// The entries the log shows.
pub open spec fn log_rows(data: SessionData, tab: int, since: Option<&str>) -> Seq<(int, int)> {
    picked(
        data.metrics.tool_details@,
        only_tool(data, tab),
        since,
        data.metrics.tool_details@.len() as int,
    )
}

proof fn those_of_a_tool(details: Seq<ToolDetail>, at: int, since: Option<&str>, n: int, t: int, k: int)
    requires
        0 <= n <= details.len(),
    ensures
        from_tool(details, at, since, n).contains((t, k)) <==> t == at && 0 <= k < n && (since is None || !text_before(
            details[k].ts@,
            since->0@,
        )),
        from_tool(details, at, since, n).no_duplicates(),
    decreases n,
{
    if n > 0 {
        let before = from_tool(details, at, since, n - 1);
        let all = from_tool(details, at, since, n);
        those_of_a_tool(details, at, since, n - 1, t, k);
        those_of_a_tool(details, at, since, n - 1, at, n - 1);
        if all != before {
            assert(all[before.len() as int] == (at, n - 1));
            if before.contains((t, k)) {
                let i = choose|i: int| 0 <= i < before.len() && before[i] == (t, k);
                assert(all[i] == (t, k));
            }
            if all.contains((t, k)) {
                let i = choose|i: int| 0 <= i < all.len() && all[i] == (t, k);
                if i < before.len() {
                    assert(before[i] == (t, k));
                }
            }
            assert forall|i: int, j: int| 0 <= i < all.len() && 0 <= j < all.len() && i != j implies all[i] != all[j] by {
                if i < before.len() {
                    assert(before[i] == all[i]);
                    assert(before.contains(all[i]));
                }
                if j < before.len() {
                    assert(before[j] == all[j]);
                    assert(before.contains(all[j]));
                }
            }
        }
    }
}

proof fn those_picked(
    details: Seq<(String, Vec<ToolDetail>)>,
    only: Option<Seq<char>>,
    since: Option<&str>,
    n: int,
    t: int,
    k: int,
)
    requires
        0 <= n <= details.len(),
    ensures
        picked(details, only, since, n).contains((t, k)) <==> 0 <= t < n && 0 <= k < details[t].1@.len() && (only is None
            || details[t].0@ == only->0) && (since is None || !text_before(details[t].1@[k].ts@, since->0@)),
        picked(details, only, since, n).no_duplicates(),
    decreases n,
{
    if n > 0 {
        let before = picked(details, only, since, n - 1);
        let list = details[n - 1].1@;
        let more = from_tool(list, n - 1, since, list.len() as int);
        let all = picked(details, only, since, n);
        those_picked(details, only, since, n - 1, t, k);
        those_of_a_tool(list, n - 1, since, list.len() as int, t, k);
        if only is None || details[n - 1].0@ == only->0 {
            assert(all == before + more);
            if before.contains((t, k)) {
                let i = choose|i: int| 0 <= i < before.len() && before[i] == (t, k);
                assert(all[i] == (t, k));
            }
            if more.contains((t, k)) {
                let i = choose|i: int| 0 <= i < more.len() && more[i] == (t, k);
                assert(all[before.len() + i] == (t, k));
            }
            if all.contains((t, k)) {
                let i = choose|i: int| 0 <= i < all.len() && all[i] == (t, k);
                if i < before.len() {
                    assert(before[i] == (t, k));
                } else {
                    assert(more[i - before.len()] == (t, k));
                }
            }
            assert forall|i: int, j: int| 0 <= i < all.len() && 0 <= j < all.len() && i != j implies all[i] != all[j] by {
                let (a, b) = (all[i], all[j]);
                those_picked(details, only, since, n - 1, a.0, a.1);
                those_picked(details, only, since, n - 1, b.0, b.1);
                those_of_a_tool(list, n - 1, since, list.len() as int, a.0, a.1);
                those_of_a_tool(list, n - 1, since, list.len() as int, b.0, b.1);
                if i < before.len() {
                    assert(before[i] == a);
                    assert(before.contains(a));
                } else {
                    assert(more[i - before.len()] == a);
                    assert(more.contains(a));
                }
                if j < before.len() {
                    assert(before[j] == b);
                    assert(before.contains(b));
                } else {
                    assert(more[j - before.len()] == b);
                    assert(more.contains(b));
                }
            }
        }
    }
}

/// With a tool picked in the sidebar, a call is in the log exactly where it was made
/// with the tool of that entry and is not before the mark; with all of them, exactly
/// where it is not before the mark. And it is there once.
pub proof fn a_call_is_logged_under_its_tool(data: SessionData, tab: int, since: Option<&str>, t: int, k: int)
    requires
        0 <= tab < tab_count(data),
        0 <= t < data.metrics.tool_details@.len(),
        0 <= k < data.metrics.tool_details@[t].1@.len(),
    ensures
        log_rows(data, tab, since).contains((t, k)) <==> {
            &&& tab == 0 || data.metrics.tool_details@[t].0@ == tab_at(data, tab).0
            &&& since is None || !text_before(data.metrics.tool_details@[t].1@[k].ts@, since->0@)
        },
        log_rows(data, tab, since).no_duplicates(),
{
    those_picked(
        data.metrics.tool_details@,
        only_tool(data, tab),
        since,
        data.metrics.tool_details@.len() as int,
        t,
        k,
    );
}

/// The first entry of the sidebar is all calls; every other is a tool that was used,
/// with how often.
pub proof fn the_sidebar_names_the_tools(data: SessionData, i: int)
    requires
        data.metrics.tools@.len() <= usize::MAX,
        0 <= i < tab_count(data),
    ensures
        i == 0 ==> tab_at(data, i) == ("All"@, data.metrics.tool_count),
        i > 0 ==> exists|k: int|
            #![trigger data.metrics.tools@[k]]
            0 <= k < data.metrics.tools@.len() && tab_at(data, i) == (
                data.metrics.tools@[k].0@,
                data.metrics.tools@[k].1,
            ),
{
    let tools = data.metrics.tools@;
    crate::order::every_row_has_its_place(tab_keys(tools), true);
    if i > 0 {
        let k = sorted(tab_keys(tools), true)[i - 1] as int;
        assert(tools[k].0@ == tab_at(data, i).0);
    }
}

/// The log goes from the oldest call to the newest.
pub proof fn the_log_is_oldest_first(data: SessionData, tab: int, since: Option<&str>, i: int, j: int)
    requires
        0 <= i < j < log_rows(data, tab, since).len() <= usize::MAX,
        data.metrics.tool_details@.len() <= usize::MAX,
    ensures
        ({
            let details = data.metrics.tool_details@;
            let rows = log_rows(data, tab, since);
            let order = sorted(time_keys(details, rows), true);
            let (a, b) = (rows[order[i] as int], rows[order[j] as int]);
            !text_before(details[b.0].1@[b.1].ts@, details[a.0].1@[a.1].ts@)
        }),
{
    let details = data.metrics.tool_details@;
    let rows = log_rows(data, tab, since);
    let keys = time_keys(details, rows);
    crate::order::every_row_has_its_place(keys, true);
    let order = sorted(keys, true);
    let (x, y) = (order[i] as int, order[j] as int);
    assert(crate::order::goes_before(keys, true, x, y));
    assert(keys[x] == letters(details[rows[x].0].1@[rows[x].1].ts@));
    assert(keys[y] == letters(details[rows[y].0].1@[rows[y].1].ts@));
    if crate::order::lex_lt(keys[y], keys[x]) {
        if crate::order::lex_lt(keys[x], keys[y]) {
            crate::order::lex_transitive(keys[x], keys[y], keys[x]);
        }
        crate::order::lex_irreflexive(keys[x]);
    }
}

/// Why there is nothing to show, where there is nothing.
pub open spec fn no_log(data: SessionData, tab: int, since: Option<&str>) -> Option<Seq<char>> {
    if data.metrics.tool_count == 0 {
        Some("No tool invocations."@)
    } else if tab >= tab_count(data) {
        Some("No tool selected."@)
    } else if log_rows(data, tab, since).len() == 0 {
        Some(
            if since is Some {
                "No invocations since cctop started."@
            } else {
                "No invocations recorded."@
            },
        )
    } else {
        None
    }
}

fn bare(text: &str) -> (r: (Text, Vec<Option<String>>))
    ensures
        r.0@ == nothing().push(blank().with(text@, Ink::Dim)),
        owners_of(r.1@) == seq![None::<Seq<char>>],
{
    let mut owners: Vec<Option<String>> = Vec::new();
    owners.push(None);
    assert(owners_of(owners@) =~= seq![None::<Seq<char>>]);
    (note(text, Ink::Dim), owners)
}

/// The log's lines, and for each of them the invocation it belongs to.
///
/// The caller needs that to turn a click on a row back into the entry under it,
/// since wrapped and diff lines make the two differ.
pub fn tool_activity(data: &SessionData, tab: usize, view: &LogView) -> (r: (Text, Vec<Option<String>>))
    requires
        opens(data.metrics.tool_details@, *view),
    ensures
        match no_log(*data, tab as int, view.live_since) {
            Some(why) => {
                &&& r.0@ == nothing().push(blank().with(why, Ink::Dim))
                &&& owners_of(r.1@) == seq![None::<Seq<char>>]
            },
            None => {
                let details = data.metrics.tool_details@;
                let rows = log_rows(*data, tab as int, view.live_since);
                let order = sorted(time_keys(details, rows), true);
                &&& r.0@ == log_lines(details, rows, order, tab == 0, *view, rows.len() as int)
                &&& owners_of(r.1@) == log_owners(details, rows, order, tab == 0, *view, rows.len() as int)
            },
        },
{
    if data.metrics.tool_count == 0 {
        return bare("No tool invocations.");
    }
    let tabs = tool_tabs(data);
    if tab >= tabs.len() {
        return bare("No tool selected.");
    }
    let all = tab == 0;
    let details = &data.metrics.tool_details;
    let rows = if all {
        pick(details, None, view.live_since)
    } else {
        pick(details, Some(tabs[tab].0.as_str()), view.live_since)
    };
    let ghost at = places_of(rows@);
    assert(at == log_rows(*data, tab as int, view.live_since));
    if rows.len() == 0 {
        if view.live_since.is_some() {
            return bare("No invocations since cctop started.");
        }
        return bare("No invocations recorded.");
    }
    let order = by_time(details, &rows);
    let mut out = Text::new();
    let mut owners: Vec<Option<String>> = Vec::new();
    assert(owners_of(owners@) =~= Seq::<Option<Seq<char>>>::empty());
    let mut i: usize = 0;
    while i < order.len()
        invariant
            i <= order@.len(),
            at == places_of(rows@),
            details == &data.metrics.tool_details,
            places(details@, at),
            lists_each(order@, rows@.len() as int),
            opens(details@, *view),
            out@ == log_lines(details@, at, order@, all, *view, i as int),
            owners_of(owners@) == log_owners(details@, at, order@, all, *view, i as int),
        decreases order@.len() - i,
    {
        let row: (usize, usize) = rows[order[i]];
        assert(at[order@[i as int] as int] == (row.0 as int, row.1 as int));
        let d = &details[row.0].1[row.1];
        let lines = entry(details[row.0].0.as_str(), d, all, view);
        let key = detail_key(d);
        let n: usize = lines.len();
        let ghost was = owners_of(owners@);
        let ghost name = key@;
        let mut k: usize = 0;
        assert(owners_of(owners@) =~= was + Seq::new(0, |j: int| Some(name)));
        while k < n
            invariant
                k <= n,
                key@ == name,
                owners_of(owners@) == was + Seq::new(k as nat, |j: int| Some(name)),
            decreases n - k,
        {
            let ghost prior = owners@;
            owners.push(Some(key.clone()));
            assert(owners_of(owners@) =~= owners_of(prior).push(Some(name)));
            assert(owners_of(owners@) =~= was + Seq::new((k + 1) as nat, |j: int| Some(name)));
            k += 1;
        }
        out.append(lines);
        i += 1;
    }
    (out, owners)
}

/// Every line of the log belongs to an invocation: there are as many owners as
/// lines.
pub proof fn every_line_has_an_owner(
    details: Seq<(String, Vec<ToolDetail>)>,
    rows: Seq<(int, int)>,
    order: Seq<usize>,
    all: bool,
    view: LogView,
    n: int,
)
    ensures
        log_lines(details, rows, order, all, view, n).len() == log_owners(details, rows, order, all, view, n).len(),
    decreases n,
{
    if n > 0 {
        every_line_has_an_owner(details, rows, order, all, view, n - 1);
    }
}

/// An entry says of its call when it was made, whether it failed, who made it and what
/// it was; which tool made it only among those of every tool.
pub proof fn an_entry_is_of_its_call(tool: Seq<char>, d: ToolDetail, all: bool, view: LogView)
    ensures
        ({
            let l = entry_line(tool, d, all, view);
            let at = if all {
                4int
            } else {
                3
            };
            let w = l.spans[at].text.len() as int;
            &&& l.failed == d.failed
            &&& moment(d.ts@) is Some ==> l.spans[0].text == d.clock@
            &&& d.failed ==> l.spans[1].text == "✗"@
            &&& !d.failed ==> l.spans[1].text == " "@
            &&& l.spans[2].text == left_in(origin_text(d.origin), 7) + " "@
            &&& all ==> l.spans[3].text == tool_text(tool) + " "@
            &&& w >= 8
            &&& l.spans[at].text == left_in(cut(short_path(d.d@, view.home@), w), w)
            &&& l.spans.skip(at + 1) == trailing(d).spans
        }),
{
    let l = entry_line(tool, d, all, view);
    let at = if all {
        4int
    } else {
        3
    };
    let w = detail_width(tool, d, all, view.width as int);
    crate::text::a_cut_text_begins_the_same(short_path(d.d@, view.home@), w);
    assert(l.spans[at].text == left_in(cut(short_path(d.d@, view.home@), w), w));
    assert(l.spans[at].text.len() == w);
    assert(l.spans.skip(at + 1) =~= trailing(d).spans);
}

/// What a call changed, how long it took and what it cost in tokens stand apart, each
/// with its own figure, and what is not known of it is not there.
pub proof fn what_a_call_cost_is_its_own(d: ToolDetail)
    ensures
        ({
            let spans = trailing(d).spans;
            let changed = if d.delta is Some {
                2int
            } else {
                0
            };
            let timed = if d.dur_ms is Some {
                1int
            } else {
                0
            };
            let counted = d.tokens_in > 0 || d.tokens_out > 0;
            &&& spans.len() == changed + timed + (if counted {
                1int
            } else {
                0
            })
            &&& d.delta matches Some(delta) ==> spans[0].text == " +"@ + dec(delta.added as nat) && spans[1].text == " -"@
                + dec(delta.removed as nat) && spans[0].ink == Ink::Low && spans[1].ink == Ink::High
            &&& d.dur_ms matches Some(ms) ==> spans[changed].text == " "@ + right_in(millis_text(ms as int), 7)
            &&& counted && d.shared <= 1 ==> spans.last().text == " "@ + "↓"@ + right_in(tokens_text(d.tokens_in as nat), 6)
                + " ↑"@ + right_in(tokens_text(d.tokens_out as nat), 5)
            &&& counted && d.shared > 1 ==> spans.last().text == "*"@ + "↓"@ + right_in(tokens_text(d.tokens_in as nat), 6)
                + " ↑"@ + right_in(tokens_text(d.tokens_out as nat), 5)
        }),
{
}

/// A call is by the session itself or by the subagent whose id its mark begins.
pub proof fn a_call_is_by_who_made_it(name: Seq<char>, agent: String)
    requires
        agent@ == "agent-"@ + name || agent@ == name && !begins(name, "agent-"@),
    ensures
        origin_text(None) == "main"@,
        origin_text(Some(agent)) == "↳"@ + byte_head(name, 6),
{
    let s = "agent-"@ + name;
    assert(s.take("agent-"@.len() as int) =~= "agent-"@);
    assert(s.skip("agent-"@.len() as int) =~= name);
}

/// A time is told to the unit that fits it: under a second in milliseconds, under a
/// minute in tenths of a second, and beyond as any span.
pub proof fn a_call_is_timed(ms: int)
    ensures
        0 <= ms < 1000 ==> crate::text::reading(millis_text(ms)) == ms && crate::text::ends(millis_text(ms), "ms"@),
        1000 <= ms < 60_000 ==> -50 <= crate::text::reading(millis_text(ms)) * 100 - ms <= 50 && millis_text(ms).last() == 's',
        ms >= 60_000 ==> millis_text(ms) == span_text(ms as nat),
        ms < 0 ==> millis_text(ms) == "-"@ + dec((-ms) as nat) + "ms"@,
{
    reveal_strlit("ms");
    reveal_strlit("s");
    if 0 <= ms < 1000 {
        crate::text::a_number_reads_back(ms as nat);
        crate::text::only_digits_are_read(dec(ms as nat), "ms"@);
        let t = millis_text(ms);
        assert(t.skip(t.len() - 2) =~= "ms"@);
    } else if 1000 <= ms < 60_000 {
        reveal_with_fuel(crate::figures::tens, 2);
        assert(crate::figures::tens(1) == 10);
        crate::figures::a_figure_reads_near(ms as nat, 1000, 1);
        crate::text::only_digits_are_read(fixed(ms as nat, 1000, 10, 1), "s"@);
    }
}

proof fn hunks_are_listed(hunks: Seq<String>, width: int, n: int, i: int)
    requires
        0 <= i < n <= hunks.len(),
    ensures
        hunk_lines(hunks, width, n).len() == n,
        hunk_lines(hunks, width, n)[i].spans[1].text == cut(hunks[i]@, if width < 9 {
            0
        } else {
            width - 9
        }),
        hunk_lines(hunks, width, n)[i].spans[1].ink == hunk_ink(hunks[i]@),
    decreases n,
{
    assert(hunk_lines(hunks, width, 0).len() == 0);
    if n > 1 {
        hunks_are_listed(hunks, width, n - 1, if i < n - 1 {
            i
        } else {
            0
        });
    }
}

proof fn full_lines_are_listed(texts: Seq<Seq<char>>, failed: bool, n: int, i: int)
    requires
        0 <= i < n <= texts.len(),
    ensures
        full_lines(texts, failed, n).len() == n,
        full_lines(texts, failed, n)[i].spans[1].text == texts[i],
    decreases n,
{
    assert(full_lines(texts, failed, 0).len() == 0);
    if n > 1 {
        full_lines_are_listed(texts, failed, n - 1, if i < n - 1 {
            i
        } else {
            0
        });
    }
}

/// The entry that was opened, and no other, shows what it was asked in full; what was
/// edited is shown with its lines, added in one colour and taken out in the other,
/// where that was asked for.
pub proof fn only_the_open_entry_is_shown_in_full(tool: Seq<char>, d: ToolDetail, all: bool, view: LogView, i: int)
    ensures
        ({
            let lines = entry_lines(tool, d, all, view);
            let open = view.expanded is Some && view.expanded->0@ == detail_name(d);
            let texts = wrapped(full_text(d), room_inside(view));
            let n = if open {
                texts.len() as int
            } else {
                0
            };
            &&& lines[0] == entry_line(tool, d, all, view)
            &&& !view.show_diff || d.delta is None ==> lines.len() == 1 + n
            &&& open && 0 <= i < n ==> lines[1 + i].spans[1].text == texts[i]
            &&& view.show_diff && d.delta is Some ==> {
                let hunks = d.delta->0.hunks@;
                &&& lines.len() == 1 + n + hunks.len()
                &&& 0 <= i < hunks.len() ==> lines[1 + n + i].spans[1].text == cut(hunks[i]@, if view.width < 9 {
                    0
                } else {
                    view.width - 9
                })
                &&& 0 <= i < hunks.len() && hunks[i]@.len() > 0 && hunks[i]@[0] == '+' ==> lines[1 + n + i].spans[1].ink
                    == Ink::Low
                &&& 0 <= i < hunks.len() && hunks[i]@.len() > 0 && hunks[i]@[0] == '-' ==> lines[1 + n + i].spans[1].ink
                    == Ink::High
            }
        }),
{
    let texts = wrapped(full_text(d), room_inside(view));
    let open = view.expanded is Some && view.expanded->0@ == detail_name(d);
    let n = if open {
        texts.len() as int
    } else {
        0
    };
    if open {
        if texts.len() > 0 {
            full_lines_are_listed(texts, d.failed, texts.len() as int, if 0 <= i < texts.len() {
                i
            } else {
                0
            });
        } else {
            assert(full_lines(texts, d.failed, 0).len() == 0);
        }
    }
    if view.show_diff && d.delta is Some {
        let hunks = d.delta->0.hunks@;
        if hunks.len() > 0 {
            hunks_are_listed(hunks, view.width as int, hunks.len() as int, if 0 <= i < hunks.len() {
                i
            } else {
                0
            });
        } else {
            assert(hunk_lines(hunks, view.width as int, 0).len() == 0);
        }
    }
}

proof fn entries_follow(
    details: Seq<(String, Vec<ToolDetail>)>,
    rows: Seq<(int, int)>,
    order: Seq<usize>,
    all: bool,
    view: LogView,
    n: int,
    p: int,
)
    requires
        0 <= p < n <= order.len(),
    ensures
        ({
            let (t, k) = rows[order[p] as int];
            let own = entry_lines(details[t].0@, details[t].1@[k], all, view);
            let from = log_lines(details, rows, order, all, view, p).len() as int;
            let lines = log_lines(details, rows, order, all, view, n);
            let owners = log_owners(details, rows, order, all, view, n);
            &&& from + own.len() <= lines.len()
            &&& lines.len() == owners.len()
            &&& lines.subrange(from, from + own.len()) == own
            &&& forall|i: int|
                from <= i < from + own.len() ==> #[trigger] owners[i] == Some(detail_name(details[t].1@[k]))
        }),
    decreases n,
{
    let (t, k) = rows[order[p] as int];
    let own = entry_lines(details[t].0@, details[t].1@[k], all, view);
    let from = log_lines(details, rows, order, all, view, p).len() as int;
    let lines = log_lines(details, rows, order, all, view, n);
    let owners = log_owners(details, rows, order, all, view, n);
    owners_are_as_many(details, rows, order, all, view, n - 1);
    let before = log_lines(details, rows, order, all, view, n - 1);
    let owned = log_owners(details, rows, order, all, view, n - 1);
    if p < n - 1 {
        entries_follow(details, rows, order, all, view, n - 1, p);
        assert(lines.subrange(from, from + own.len()) =~= before.subrange(from, from + own.len()));
        assert(forall|i: int| from <= i < from + own.len() ==> #[trigger] owners[i] == owned[i]);
    } else {
        assert(lines.subrange(from, from + own.len()) =~= own);
    }
}

proof fn owners_are_as_many(
    details: Seq<(String, Vec<ToolDetail>)>,
    rows: Seq<(int, int)>,
    order: Seq<usize>,
    all: bool,
    view: LogView,
    n: int,
)
    ensures
        log_lines(details, rows, order, all, view, n).len() == log_owners(details, rows, order, all, view, n).len(),
    decreases n,
{
    if n > 0 {
        owners_are_as_many(details, rows, order, all, view, n - 1);
    } else {
        assert(log_lines(details, rows, order, all, view, n).len() == 0);
        assert(log_owners(details, rows, order, all, view, n).len() == 0);
    }
}

/// Every call in the log is drawn with its own tool and its own entry, and its lines are
/// its own when they are clicked.
pub proof fn every_call_is_drawn(data: SessionData, tab: int, view: LogView, t: int, k: int)
    requires
        log_rows(data, tab, view.live_since).contains((t, k)),
        log_rows(data, tab, view.live_since).len() <= usize::MAX,
    ensures
        ({
            let details = data.metrics.tool_details@;
            let rows = log_rows(data, tab, view.live_since);
            let order = sorted(time_keys(details, rows), true);
            let lines = log_lines(details, rows, order, tab == 0, view, rows.len() as int);
            let owners = log_owners(details, rows, order, tab == 0, view, rows.len() as int);
            let own = entry_lines(details[t].0@, details[t].1@[k], tab == 0, view);
            exists|from: int|
                {
                    &&& 0 <= from
                    &&& from + own.len() <= lines.len()
                    &&& #[trigger] lines.skip(from).take(own.len() as int) == own
                    &&& forall|i: int|
                        from <= i < from + own.len() ==> #[trigger] owners[i] == Some(detail_name(details[t].1@[k]))
                }
        }),
{
    let details = data.metrics.tool_details@;
    let rows = log_rows(data, tab, view.live_since);
    let keys = time_keys(details, rows);
    let order = sorted(keys, true);
    crate::order::every_row_has_its_place(keys, true);
    let x = choose|x: int| 0 <= x < rows.len() && rows[x] == (t, k);
    crate::order::every_row_listed(order, rows.len() as int, x);
    let p = choose|p: int| 0 <= p < rows.len() && #[trigger] order[p] == x;
    entries_follow(details, rows, order, tab == 0, view, rows.len() as int, p);
    let own = entry_lines(details[t].0@, details[t].1@[k], tab == 0, view);
    let from = log_lines(details, rows, order, tab == 0, view, p).len() as int;
    let lines = log_lines(details, rows, order, tab == 0, view, rows.len() as int);
    assert(lines.skip(from).take(own.len() as int) =~= lines.subrange(from, from + own.len()));
}

/// A call is known by its id, and one that has none by when it was made and what it was.
pub proof fn a_call_is_known_by_its_id(a: ToolDetail, b: ToolDetail)
    ensures
        a.id matches Some(id) ==> detail_name(a) == id@,
        a.id is None ==> detail_name(a) == a.ts@ + "|"@ + a.d@,
        a.id is None && b.id is None && a.ts@ == b.ts@ ==> (detail_name(a) == detail_name(b) <==> a.d@ == b.d@),
{
    if a.id is None && b.id is None && a.ts@ == b.ts@ && detail_name(a) == detail_name(b) {
        let n = (a.ts@ + "|"@).len() as int;
        assert(detail_name(a).skip(n) =~= a.d@);
        assert(detail_name(b).skip(n) =~= b.d@);
    }
}

} // verus!
