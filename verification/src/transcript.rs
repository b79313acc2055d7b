//! A conversation laid out as rows: each turn into a block, once for each width.

use vstd::prelude::*;

use crate::figures::ms_of;
use crate::model::{Provider, Session, Surface};
use crate::outside::{cells, cells_of, lower_char, lowered, moment, moment_of};
use crate::panels::info::{kind_ink, kind_ink_of};
use crate::panels::log::{flows, wrap, wrapped};
use crate::styled::{blank, line_of, nothing, Ink, Line, LineView, Span, SpanView, Text};
use crate::text::{cat, chars_of, count, cut, dec, decimal, lines, lines_of, repeat, same, times, truncate, words};

verus! {

/// A tool call of a turn.
pub struct ToolUse {
    pub name: String,
    /// What it was asked, without the escape codes in it.
    pub detail: String,
    /// The full argument, where it says more than the short one.
    pub full: Option<String>,
    pub result: Option<String>,
    /// What it changed, without the escape codes in it.
    pub diff: Vec<String>,
    pub added: u64,
    pub removed: u64,
    pub failed: bool,
}

/// Something said in a conversation.
pub struct Turn {
    pub seq: usize,
    pub role: String,
    pub kind: String,
    pub ts: String,
    /// When it was said, in local time, which is shown where `ts` can be read.
    pub clock: String,
    pub text: String,
    /// Whether the text goes on in the transcript.
    pub clipped: bool,
    pub tools: Vec<ToolUse>,
}

/// A session's transcript, or the newest part of it.
pub struct Conversation {
    pub turns: Vec<Turn>,
    /// How many turns there are before these.
    pub earlier: u64,
    pub note: Option<String>,
}

/// Where a row has a link.
pub struct Link {
    pub line: usize,
    pub from: u16,
    pub to: u16,
    pub url: String,
}

/// What a [`Link`] says.
#[verifier::ext_equal]
pub struct LinkView {
    pub line: int,
    pub from: int,
    pub to: int,
    pub url: Seq<char>,
}

impl View for Link {
    type V = LinkView;

    open spec fn view(&self) -> LinkView {
        LinkView { line: self.line as int, from: self.from as int, to: self.to as int, url: self.url@ }
    }
}

/// What the links say.
pub open spec fn links_view(v: Seq<Link>) -> Seq<LinkView> {
    v.map_values(|l: Link| l@)
}

/// A reply drawn as the markup it was written in.
pub struct Rendered {
    pub lines: Text,
    pub links: Vec<Link>,
}

/// A tool's argument and result, drawn in the colours they were printed in.
pub struct DrawnTool {
    pub full: Text,
    pub result: Text,
}

/// What of a turn is drawn elsewhere, at the width of its block.
pub struct Drawn {
    pub reply: Rendered,
    pub tools: Vec<DrawnTool>,
}

/// One turn laid out; or the note above them all, which has no number.
pub struct Block {
    pub seq: Option<usize>,
    /// Whether its tools were laid out in full.
    pub open: bool,
    pub has_tools: bool,
    /// When it was said, for the age that is drawn behind its header.
    pub ts: Option<String>,
    pub lines: Text,
    pub links: Vec<Link>,
    /// Each row's text in lower case, character by character.
    pub plain: Vec<Vec<char>>,
}

/// What a [`Block`] says.
#[verifier::ext_equal]
pub struct BlockView {
    pub seq: Option<usize>,
    pub open: bool,
    pub has_tools: bool,
    pub ts: Option<Seq<char>>,
    pub lines: Seq<LineView>,
    pub links: Seq<LinkView>,
    pub plain: Seq<Seq<char>>,
}

/// Rows of characters.
pub open spec fn rows_view(v: Seq<Vec<char>>) -> Seq<Seq<char>> {
    v.map_values(|r: Vec<char>| r@)
}

impl View for Block {
    type V = BlockView;

    open spec fn view(&self) -> BlockView {
        BlockView {
            seq: self.seq,
            open: self.open,
            has_tools: self.has_tools,
            ts: match self.ts {
                Some(t) => Some(t@),
                None => None,
            },
            lines: self.lines@,
            links: links_view(self.links@),
            plain: rows_view(self.plain@),
        }
    }
}

/// A text in lower case, character by character, so that a place in it is a place
/// in the text.
pub open spec fn lower_text(s: Seq<char>) -> Seq<char> {
    s.map_values(|c: char| lowered(c))
}

/// A text in lower case, character by character.
pub fn lower(s: &str) -> (r: Vec<char>)
    ensures
        r@ == lower_text(s@),
{
    let v = chars_of(s);
    let mut out: Vec<char> = Vec::new();
    let mut i: usize = 0;
    while i < v.len()
        invariant
            i <= v@.len(),
            out@ == lower_text(v@.take(i as int)),
        decreases v@.len() - i,
    {
        out.push(lower_char(v[i]));
        assert(out@ =~= lower_text(v@.take(i + 1)));
        i += 1;
    }
    assert(v@.take(i as int) =~= v@);
    out
}

/// Whether `query` stands in `row` at `i`.
pub open spec fn stands_at(row: Seq<char>, query: Seq<char>, i: int) -> bool {
    0 <= i && i + query.len() <= row.len() && row.subrange(i, i + query.len()) == query
}

/// Where `query` stands in `row` from `i` on, each place behind the end of the
/// one before.
pub open spec fn found_from(row: Seq<char>, query: Seq<char>, i: int) -> Seq<int>
    decreases row.len() - i,
{
    if query.len() == 0 || i < 0 || i + query.len() > row.len() {
        Seq::empty()
    } else if stands_at(row, query, i) {
        seq![i] + found_from(row, query, (i + query.len()) as int)
    } else {
        found_from(row, query, i + 1)
    }
}

/// The places, as numbers.
pub open spec fn places(v: Seq<usize>) -> Seq<int> {
    v.map_values(|i: usize| i as int)
}

/// Where `query` occurs in `row`: where each occurrence begins, none overlapping
/// the one before.
pub fn matches_in(row: &Vec<char>, query: &Vec<char>) -> (r: Vec<usize>)
    ensures
        places(r@) == found_from(row@, query@, 0),
{
    let mut out: Vec<usize> = Vec::new();
    let n: usize = query.len();
    assert(places(out@) =~= Seq::<int>::empty());
    if n == 0 || n > row.len() {
        return out;
    }
    let mut i: usize = 0;
    assert(places(out@) + found_from(row@, query@, 0) =~= found_from(row@, query@, 0));
    while i <= row.len() - n
        invariant
            n == query@.len(),
            0 < n <= row@.len(),
            i <= row@.len(),
            places(out@) + found_from(row@, query@, i as int) == found_from(row@, query@, 0),
        decreases row@.len() - i,
    {
        let ghost was = out@;
        if stands(row, query, i) {
            out.push(i);
            assert(places(out@) =~= places(was).push(i as int));
            assert(places(out@) + found_from(row@, query@, i + n) =~= places(was) + (seq![i as int] + found_from(
                row@,
                query@,
                i + n,
            )));
            i = i + n;
        } else {
            i = i + 1;
        }
    }
    assert(places(out@) =~= places(out@) + found_from(row@, query@, i as int));
    out
}

fn stands(row: &Vec<char>, query: &Vec<char>, i: usize) -> (r: bool)
    requires
        i + query@.len() <= row@.len(),
    ensures
        r == stands_at(row@, query@, i as int),
{
    let n: usize = row.len();
    let mut k: usize = 0;
    let ghost part = row@.subrange(i as int, i + query@.len());
    while k < query.len()
        invariant
            k <= query@.len(),
            i + query@.len() <= row@.len(),
            n == row@.len(),
            part == row@.subrange(i as int, i + query@.len()),
            forall|j: int| 0 <= j < k ==> part[j] == query@[j],
        decreases query@.len() - k,
    {
        if row[i + k] != query[k] {
            assert(part[k as int] != query@[k as int]);
            return false;
        }
        assert(part[k as int] == row@[i + k]);
        k += 1;
    }
    assert(part =~= query@);
    true
}

/// What is found are occurrences, in order, none overlapping another.
pub proof fn matches_do_not_overlap(row: Seq<char>, query: Seq<char>, i: int)
    requires
        0 <= i,
    ensures
        forall|k: int|
            0 <= k < found_from(row, query, i).len() ==> stands_at(row, query, #[trigger] found_from(row, query, i)[k])
                && found_from(row, query, i)[k] >= i,
        forall|k: int, m: int|
            0 <= k < m < found_from(row, query, i).len() ==> #[trigger] found_from(row, query, i)[k] + query.len()
                <= #[trigger] found_from(row, query, i)[m],
    decreases row.len() - i,
{
    if query.len() > 0 && i + query.len() <= row.len() {
        let all = found_from(row, query, i);
        if stands_at(row, query, i) {
            let rest = found_from(row, query, (i + query.len()) as int);
            matches_do_not_overlap(row, query, (i + query.len()) as int);
            assert forall|k: int| 0 <= k < all.len() implies stands_at(row, query, #[trigger] all[k]) && all[k] >= i by {
                if k > 0 {
                    assert(all[k] == rest[k - 1]);
                }
            }
            assert forall|k: int, m: int| 0 <= k < m < all.len() implies #[trigger] all[k] + query.len()
                <= #[trigger] all[m] by {
                assert(all[m] == rest[m - 1]);
                if k > 0 {
                    assert(all[k] == rest[k - 1]);
                }
            }
        } else {
            matches_do_not_overlap(row, query, i + 1);
            assert(all == found_from(row, query, i + 1));
        }
    }
}

/// Something is found wherever the query stands in the row.
pub proof fn an_occurrence_is_found(row: Seq<char>, query: Seq<char>, i: int, at: int)
    requires
        query.len() > 0,
        0 <= i <= at,
        stands_at(row, query, at),
    ensures
        found_from(row, query, i).len() > 0,
    decreases row.len() - i,
{
    if !stands_at(row, query, i) {
        an_occurrence_is_found(row, query, i + 1, at);
    }
}

/// Whether the character at `at` is part of a match.
pub open spec fn is_lit(found: Seq<int>, len: int, at: int) -> bool {
    exists|k: int| 0 <= k < found.len() && #[trigger] found[k] <= at < found[k] + len
}

/// A piece of a row, lit where it is part of a match.
pub struct Piece {
    pub text: String,
    pub ink: Ink,
    pub bold: bool,
    pub lit: bool,
}

/// What a [`Piece`] says.
#[verifier::ext_equal]
pub struct PieceView {
    pub text: Seq<char>,
    pub ink: Ink,
    pub bold: bool,
    pub lit: bool,
}

impl View for Piece {
    type V = PieceView;

    open spec fn view(&self) -> PieceView {
        PieceView { text: self.text@, ink: self.ink, bold: self.bold, lit: self.lit }
    }
}

/// What the pieces say.
pub open spec fn pieces_view(v: Seq<Piece>) -> Seq<PieceView> {
    v.map_values(|p: Piece| p@)
}

/// A span in pieces, split where a match starts or stops inside it. `at` is where
/// the span stands in the row.
pub open spec fn split(text: Seq<char>, ink: Ink, bold: bool, found: Seq<int>, len: int, at: int) -> Seq<PieceView>
    decreases text.len(),
{
    if text.len() == 0 {
        Seq::empty()
    } else {
        let before = split(text.drop_last(), ink, bold, found, len, at);
        let on = is_lit(found, len, at + text.len() - 1);
        if before.len() > 0 && before.last().lit == on {
            before.update(before.len() - 1, PieceView { text: before.last().text.push(text.last()), ..before.last() })
        } else {
            before.push(PieceView { text: seq![text.last()], ink, bold, lit: on })
        }
    }
}

/// The first `n` spans of a row in pieces.
pub open spec fn pieces(spans: Seq<SpanView>, found: Seq<int>, len: int, n: int) -> Seq<PieceView>
    decreases n,
{
    if n <= 0 {
        Seq::empty()
    } else {
        let s = spans[n - 1];
        pieces(spans, found, len, n - 1) + split(s.text, s.ink, s.bold, found, len, letters_in(spans, n - 1) as int)
    }
}

/// How many characters the first `n` spans have.
pub open spec fn letters_in(spans: Seq<SpanView>, n: int) -> nat
    decreases n,
{
    if n <= 0 {
        0
    } else {
        letters_in(spans, n - 1) + spans[n - 1].text.len()
    }
}

fn lit_at(found: &Vec<usize>, len: usize, at: u128) -> (r: bool)
    ensures
        r == is_lit(places(found@), len as int, at as int),
{
    let mut k: usize = 0;
    while k < found.len()
        invariant
            k <= found@.len(),
            forall|j: int| 0 <= j < k ==> !(#[trigger] places(found@)[j] <= at < places(found@)[j] + len),
        decreases found@.len() - k,
    {
        let from: u128 = found[k] as u128;
        assert(places(found@)[k as int] == from);
        if from <= at && at < from + len as u128 {
            return true;
        }
        k += 1;
    }
    false
}

fn split_span(span: &Span, found: &Vec<usize>, len: usize, at: u128, out: &mut Vec<Piece>) -> (r: u128)
    requires
        at + span.text@.len() <= u128::MAX,
    ensures
        pieces_view(final(out)@) == pieces_view(old(out)@) + split(
            span.text@,
            span.ink,
            span.bold,
            places(found@),
            len as int,
            at as int,
        ),
        r == at + span.text@.len(),
{
    let v = chars_of(span.text.as_str());
    let mut mine: Vec<Piece> = Vec::new();
    let mut i: usize = 0;
    assert(pieces_view(mine@) =~= split(v@.take(0), span.ink, span.bold, places(found@), len as int, at as int));
    while i < v.len()
        invariant
            i <= v@.len(),
            v@ == span.text@,
            at + v@.len() <= u128::MAX,
            pieces_view(mine@) == split(
                v@.take(i as int),
                span.ink,
                span.bold,
                places(found@),
                len as int,
                at as int,
            ),
        decreases v@.len() - i,
    {
        let ghost now = v@.take(i + 1);
        proof {
            assert(now.drop_last() =~= v@.take(i as int));
            assert(now.last() == v@[i as int]);
        }
        let on = lit_at(found, len, at + i as u128);
        let n: usize = mine.len();
        let ghost before = pieces_view(mine@);
        if n > 0 && mine[n - 1].lit == on {
            assert(before.last() == mine@[n - 1]@);
            let mut text = mine[n - 1].text.clone();
            text.push(v[i]);
            let ink = mine[n - 1].ink;
            let bold = mine[n - 1].bold;
            mine.set(n - 1, Piece { text, ink, bold, lit: on });
            assert(pieces_view(mine@) =~= before.update(
                n - 1,
                PieceView { text: before.last().text.push(v@[i as int]), ..before.last() },
            ));
        } else {
            if n > 0 {
                assert(before.last() == mine@[n - 1]@);
            }
            let mut text = String::new();
            text.push(v[i]);
            assert(text@ =~= seq![v@[i as int]]);
            mine.push(Piece { text, ink: span.ink, bold: span.bold, lit: on });
            assert(pieces_view(mine@) =~= before.push(
                PieceView { text: seq![v@[i as int]], ink: span.ink, bold: span.bold, lit: on },
            ));
        }
        i += 1;
    }
    assert(v@.take(i as int) =~= v@);
    let ghost a = out@;
    let ghost b = mine@;
    out.append(&mut mine);
    assert(out@ == a + b);
    assert(pieces_view(out@) =~= pieces_view(a) + pieces_view(b));
    at + v.len() as u128
}

/// `line` in pieces: the characters of the matches that begin at `found` and are
/// `len` long are lit, the others keep their own look.
pub fn highlight(line: &Line, found: &Vec<usize>, len: usize) -> (r: Vec<Piece>)
    ensures
        pieces_view(r@) == pieces(line@.spans, places(found@), len as int, line@.spans.len() as int),
{
    let mut out: Vec<Piece> = Vec::new();
    let mut at: u128 = 0;
    let mut i: usize = 0;
    assert(pieces_view(out@) =~= Seq::<PieceView>::empty());
    while i < line.spans.len()
        invariant
            i <= line.spans@.len(),
            at == letters_in(line@.spans, i as int),
            at <= i * usize::MAX,
            pieces_view(out@) == pieces(line@.spans, places(found@), len as int, i as int),
        decreases line.spans@.len() - i,
    {
        assert(line@.spans[i as int] == line.spans@[i as int]@);
        let n: usize = count(line.spans[i].text.as_str());
        assert(i * usize::MAX + usize::MAX == (i + 1) * usize::MAX) by (nonlinear_arith);
        assert((i + 1) * usize::MAX <= u128::MAX) by (nonlinear_arith)
            requires
                i < usize::MAX,
                usize::MAX <= u64::MAX,
        ;
        at = split_span(&line.spans[i], found, len, at, &mut out);
        i += 1;
    }
    assert(line@.spans.len() == line.spans@.len());
    out
}

/// What the pieces say, one behind the other.
pub open spec fn pieces_text(p: Seq<PieceView>) -> Seq<char>
    decreases p.len(),
{
    if p.len() == 0 {
        Seq::empty()
    } else {
        pieces_text(p.drop_last()) + p.last().text
    }
}

proof fn split_keeps_the_text(text: Seq<char>, ink: Ink, bold: bool, found: Seq<int>, len: int, at: int)
    ensures
        pieces_text(split(text, ink, bold, found, len, at)) == text,
        forall|k: int|
            0 <= k < split(text, ink, bold, found, len, at).len() ==> (#[trigger] split(text, ink, bold, found, len, at)[k]).ink
                == ink && split(text, ink, bold, found, len, at)[k].bold == bold,
    decreases text.len(),
{
    if text.len() > 0 {
        split_keeps_the_text(text.drop_last(), ink, bold, found, len, at);
        let before = split(text.drop_last(), ink, bold, found, len, at);
        let after = split(text, ink, bold, found, len, at);
        let on = is_lit(found, len, at + text.len() - 1);
        if before.len() > 0 && before.last().lit == on {
            assert(after.drop_last() =~= before.drop_last());
            assert(after.last().text == before.last().text.push(text.last()));
            assert(pieces_text(before) == pieces_text(before.drop_last()) + before.last().text);
            assert(pieces_text(after) =~= text.drop_last().push(text.last()));
            assert(pieces_text(after) =~= text);
        } else {
            assert(after.drop_last() =~= before);
            assert(after.last().text == seq![text.last()]);
            assert(pieces_text(after) == pieces_text(before) + seq![text.last()]);
            assert(pieces_text(after) =~= text.drop_last().push(text.last()));
            assert(pieces_text(after) =~= text);
        }
    } else {
        assert(pieces_text(split(text, ink, bold, found, len, at)) =~= text);
    }
}

proof fn pieces_text_adds(a: Seq<PieceView>, b: Seq<PieceView>)
    ensures
        pieces_text(a + b) == pieces_text(a) + pieces_text(b),
    decreases b.len(),
{
    if b.len() == 0 {
        assert(a + b =~= a);
        assert(pieces_text(a) + pieces_text(b) =~= pieces_text(a));
    } else {
        pieces_text_adds(a, b.drop_last());
        assert((a + b).drop_last() =~= a + b.drop_last());
        assert((a + b).last() == b.last());
        assert(pieces_text(a + b) =~= pieces_text(a) + pieces_text(b));
    }
}

/// Lighting matches changes nothing of what a row says.
pub proof fn a_highlight_keeps_the_text(spans: Seq<SpanView>, found: Seq<int>, len: int, n: int)
    requires
        0 <= n <= spans.len(),
    ensures
        pieces_text(pieces(spans, found, len, n)) == crate::styled::words_of(spans.take(n)),
    decreases n,
{
    if n > 0 {
        a_highlight_keeps_the_text(spans, found, len, n - 1);
        let s = spans[n - 1];
        let part = split(s.text, s.ink, s.bold, found, len, letters_in(spans, n - 1) as int);
        split_keeps_the_text(s.text, s.ink, s.bold, found, len, letters_in(spans, n - 1) as int);
        pieces_text_adds(pieces(spans, found, len, n - 1), part);
        assert(spans.take(n).drop_last() =~= spans.take(n - 1));
        assert(spans.take(n).last() == s);
    } else {
        assert(spans.take(0) =~= Seq::<SpanView>::empty());
    }
}

/// The rows' texts in lower case.
pub open spec fn plain_of(lines: Seq<LineView>) -> Seq<Seq<char>> {
    lines.map_values(|l: LineView| lower_text(l.words()))
}

/// A block of rows.
pub open spec fn block(
    seq: Option<usize>,
    open: bool,
    has_tools: bool,
    ts: Option<Seq<char>>,
    lines: Seq<LineView>,
    links: Seq<LinkView>,
) -> BlockView {
    BlockView { seq, open, has_tools, ts, lines, links, plain: plain_of(lines) }
}

fn finish(seq: Option<usize>, open: bool, has_tools: bool, ts: Option<String>, lines: Text, links: Vec<Link>) -> (r: Block)
    ensures
        r@ == block(
            seq,
            open,
            has_tools,
            match ts {
                Some(t) => Some(t@),
                None => None,
            },
            lines@,
            links_view(links@),
        ),
{
    let mut plain: Vec<Vec<char>> = Vec::new();
    let mut i: usize = 0;
    while i < lines.lines.len()
        invariant
            i <= lines.lines@.len(),
            plain@.len() == i,
            forall|j: int| 0 <= j < i ==> (#[trigger] plain@[j])@ == lower_text(lines@[j].words()),
        decreases lines.lines@.len() - i,
    {
        assert(lines@[i as int] == lines.lines@[i as int]@);
        plain.push(lower(lines.lines[i].words().as_str()));
        i += 1;
    }
    assert(rows_view(plain@) =~= plain_of(lines@));
    Block { seq, open, has_tools, ts, lines, links, plain }
}

/// Lines of one ink.
pub open spec fn inked(texts: Seq<Seq<char>>, before: Seq<char>, ink: Ink, n: int) -> Seq<LineView>
    decreases n,
{
    if n <= 0 {
        nothing()
    } else {
        inked(texts, before, ink, n - 1).push(blank().with(before + texts[n - 1], ink))
    }
}

pub(crate) fn put_inked(t: &mut Text, texts: &Vec<String>, before: &str, ink: Ink)
    ensures
        final(t)@ == old(t)@ + inked(words(texts@), before@, ink, texts@.len() as int),
{
    let ghost says = words(texts@);
    let ghost was = t@;
    let mut i: usize = 0;
    assert(was + inked(says, before@, ink, 0) =~= was);
    while i < texts.len()
        invariant
            i <= texts@.len(),
            says == words(texts@),
            t@ == was + inked(says, before@, ink, i as int),
        decreases texts@.len() - i,
    {
        assert(says[i as int] == texts@[i as int]@);
        t.push(line_of(cat(before, texts[i].as_str()).as_str(), ink));
        assert(t@ =~= was + inked(says, before@, ink, i + 1));
        i += 1;
    }
}

/// The note above the turns.
pub open spec fn note_of(note: Seq<char>, width: int) -> BlockView {
    let texts = wrapped(note, width);
    block(
        None,
        false,
        false,
        None,
        inked(texts, ""@, Ink::Dim, texts.len() as int).push(blank()),
        Seq::empty(),
    )
}

/// The note above the turns, laid out.
pub fn note_block(note: &str, width: usize) -> (r: Block)
    requires
        flows(note@, width as int),
    ensures
        r@ == note_of(note@, width as int),
{
    let texts = wrap(note, width);
    let mut t = Text::new();
    put_inked(&mut t, &texts, "", Ink::Dim);
    assert(words(texts@).len() == texts@.len());
    assert(t@ =~= inked(words(texts@), ""@, Ink::Dim, texts@.len() as int));
    t.gap();
    let links: Vec<Link> = Vec::new();
    assert(links_view(links@) =~= Seq::<LinkView>::empty());
    finish(None, false, false, None, t, links)
}

/// How many more rows opening a tool would show.
pub open spec fn more_rows(tool: ToolUse) -> nat {
    (match tool.full {
        Some(f) => lines_of(f@).len(),
        None => 0,
    }) + (match tool.result {
        Some(r) => lines_of(r@).len(),
        None => 0,
    }) + tool.diff@.len()
}

/// What stands before a tool's detail.
pub open spec fn tool_head(tool: ToolUse, open: bool) -> Seq<char> {
    "  "@ + (if more_rows(tool) == 0 {
        " "@
    } else if open {
        "▾"@
    } else {
        "▸"@
    }) + " "@ + (if tool.failed {
        "✗"@
    } else {
        "⚙"@
    }) + " "@ + tool.name@
}

/// How many lines a tool added and took out.
pub open spec fn tool_counts(tool: ToolUse) -> Seq<char> {
    if tool.added == 0 && tool.removed == 0 {
        ""@
    } else {
        "  +"@ + dec(tool.added as nat) + " −"@ + dec(tool.removed as nat)
    }
}

/// What stands behind a tool's detail: that it runs, or how much it holds.
pub open spec fn tool_tail(tool: ToolUse, open: bool) -> Seq<char> {
    let more = more_rows(tool);
    if tool.result is None {
        "  · running"@
    } else if more == 0 || open {
        ""@
    } else if more == 1 {
        "  · 1 line"@
    } else {
        "  · "@ + dec(more) + " lines"@
    }
}

/// The room a tool's detail has.
pub open spec fn tool_room(tool: ToolUse, width: int, open: bool) -> int {
    let left = width - cells(tool_head(tool, open)) - cells(tool_counts(tool)) - cells(tool_tail(tool, open)) - 2;
    if left < 0 {
        0
    } else {
        left
    }
}

/// The first line of a text.
pub open spec fn first_line(s: Seq<char>) -> Seq<char> {
    if lines_of(s).len() == 0 {
        ""@
    } else {
        lines_of(s)[0]
    }
}

/// A tool's own row.
pub open spec fn tool_line(tool: ToolUse, width: int, open: bool) -> LineView {
    blank().with(
        tool_head(tool, open),
        if tool.failed {
            Ink::Failed
        } else {
            Ink::Dim
        },
    ).with("  "@ + cut(first_line(tool.detail@), tool_room(tool, width, open)), Ink::Dim).with(
        tool_counts(tool),
        Ink::Dim,
    ).with(tool_tail(tool, open), Ink::Dim)
}

/// The first `n` lines of what a tool changed.
pub open spec fn change_lines(diff: Seq<String>, n: int) -> Seq<LineView>
    decreases n,
{
    if n <= 0 {
        nothing()
    } else {
        let line = diff[n - 1]@;
        change_lines(diff, n - 1).push(
            blank().with(
                "      "@ + line,
                if line.len() > 0 && line[0] == '+' {
                    Ink::Value
                } else {
                    Ink::Dim
                },
            ),
        )
    }
}

/// A tool call: one row when closed; its argument, result and changes under it
/// when open.
pub open spec fn tool_rows(tool: ToolUse, drawn: DrawnTool, width: int, open: bool) -> Seq<LineView> {
    let t = nothing().push(tool_line(tool, width, open));
    if open {
        let t = if tool.full is Some {
            t + drawn.full@
        } else {
            t
        };
        let t = if tool.result is Some {
            t + drawn.result@
        } else {
            t
        };
        t + change_lines(tool.diff@, tool.diff@.len() as int)
    } else {
        t
    }
}

fn copy_text(t: &Text) -> (r: Text)
    ensures
        r@ == t@,
{
    let mut out = Text::new();
    let mut i: usize = 0;
    assert(out@ =~= t@.take(0));
    while i < t.lines.len()
        invariant
            i <= t.lines@.len(),
            out@ == t@.take(i as int),
        decreases t.lines@.len() - i,
    {
        assert(t@[i as int] == t.lines@[i as int]@);
        out.push(t.lines[i].copy());
        assert(out@ =~= t@.take(i + 1));
        i += 1;
    }
    assert(t@.take(i as int) =~= t@);
    out
}

/// A tool call, laid out.
pub fn tool_lines(tool: &ToolUse, drawn: &DrawnTool, width: usize, open: bool) -> (r: Text)
    ensures
        r@ == tool_rows(*tool, *drawn, width as int, open),
{
    let mut more: u128 = tool.diff.len() as u128;
    match &tool.full {
        Some(f) => {
            let all = lines(f.as_str());
            assert(words(all@).len() == all@.len());
            more = more + all.len() as u128;
        },
        None => {},
    }
    match &tool.result {
        Some(r) => {
            let all = lines(r.as_str());
            assert(words(all@).len() == all@.len());
            more = more + all.len() as u128;
        },
        None => {},
    }
    assert(more == more_rows(*tool));
    let mut head = cat("  ", if more == 0 { " " } else if open { "▾" } else { "▸" });
    head.append(" ");
    head.append(if tool.failed { "✗" } else { "⚙" });
    head.append(" ");
    head.append(tool.name.as_str());
    let counts = if tool.added == 0 && tool.removed == 0 {
        "".to_owned()
    } else {
        let mut s = cat("  +", decimal(tool.added as u128).as_str());
        s.append(" −");
        s.append(decimal(tool.removed as u128).as_str());
        s
    };
    let tail = if tool.result.is_none() {
        "  · running".to_owned()
    } else if more == 0 || open {
        "".to_owned()
    } else if more == 1 {
        "  · 1 line".to_owned()
    } else {
        let mut s = cat("  · ", decimal(more).as_str());
        s.append(" lines");
        s
    };
    let room: usize = width.saturating_sub(cells_of(head.as_str())).saturating_sub(
        cells_of(counts.as_str()),
    ).saturating_sub(cells_of(tail.as_str())).saturating_sub(2);
    assert(room == tool_room(*tool, width as int, open));
    let all = lines(tool.detail.as_str());
    assert(words(all@).len() == all@.len());
    let first = if all.len() == 0 {
        "".to_owned()
    } else {
        assert(words(all@)[0] == all@[0]@);
        all[0].clone()
    };
    let mut l = Line::new();
    l.put(head.as_str(), if tool.failed { Ink::Failed } else { Ink::Dim });
    l.put(cat("  ", truncate(first.as_str(), room).as_str()).as_str(), Ink::Dim);
    l.put(counts.as_str(), Ink::Dim);
    l.put(tail.as_str(), Ink::Dim);
    let mut t = Text::new();
    t.push(l);
    if !open {
        return t;
    }
    if tool.full.is_some() {
        t.append(copy_text(&drawn.full));
    }
    if tool.result.is_some() {
        t.append(copy_text(&drawn.result));
    }
    let ghost was = t@;
    let mut i: usize = 0;
    assert(was + change_lines(tool.diff@, 0) =~= was);
    while i < tool.diff.len()
        invariant
            i <= tool.diff@.len(),
            t@ == was + change_lines(tool.diff@, i as int),
        decreases tool.diff@.len() - i,
    {
        let line = tool.diff[i].as_str();
        let v = chars_of(line);
        let ink = if v.len() > 0 && v[0] == '+' {
            Ink::Value
        } else {
            Ink::Dim
        };
        t.push(line_of(cat("      ", line).as_str(), ink));
        assert(t@ =~= was + change_lines(tool.diff@, i + 1));
        i += 1;
    }
    t
}

/// The seam a compaction leaves.
pub open spec fn seam(width: int) -> LineView {
    let side = (if width < 11 {
        0
    } else {
        width - 11
    }) / 2;
    blank().with(times('─', side) + " compacted "@ + times('─', side), Ink::Dim)
}

/// Who says a turn, and in which ink.
pub open spec fn speaker(s: Session, turn: Turn) -> LineView {
    let l = blank();
    let l = if turn.role@ == "user"@ {
        l.with_bold("● you"@, Ink::Accent)
    } else if turn.role@ == "assistant"@ {
        if turn.kind@ == "reasoning"@ {
            l.with("● "@ + (s.type_label@ + " · thinking"@), kind_ink(s))
        } else {
            l.with_bold("● "@ + s.type_label@, kind_ink(s))
        }
    } else {
        l.with("● system"@, Ink::Dim)
    };
    if moment(turn.ts@) is Some {
        l.with("  "@ + turn.clock@, Ink::Dim)
    } else {
        l
    }
}

/// The ink of what is said: dim where an agent thinks out loud.
pub open spec fn said_ink(turn: Turn) -> Ink {
    if turn.kind@ == "reasoning"@ {
        Ink::Thought
    } else {
        Ink::Value
    }
}

/// What the user typed, behind a bar.
pub open spec fn typed_lines(texts: Seq<Seq<char>>, ink: Ink, n: int) -> Seq<LineView>
    decreases n,
{
    if n <= 0 {
        nothing()
    } else {
        typed_lines(texts, ink, n - 1).push(blank().with("▎ "@, Ink::Accent).with(texts[n - 1], ink))
    }
}

/// A reply's rows, moved in by two cells.
pub open spec fn moved_in(lines: Seq<LineView>) -> Seq<LineView> {
    lines.map_values(
        |l: LineView|
            LineView { spans: seq![SpanView { text: "  "@, ink: Ink::Plain, bold: false }] + l.spans, failed: l.failed, selected: l.selected },
    )
}

/// A reply's links, moved with its rows: under the header, and in by two cells.
pub open spec fn moved_links(links: Seq<LinkView>) -> Seq<LinkView> {
    links.map_values(|l: LinkView| LinkView { line: l.line + 1, from: l.from + 2, to: l.to + 2, url: l.url })
}

/// The room a turn's text has.
pub open spec fn body_width(width: int) -> int {
    if width < 3 {
        1
    } else {
        width - 2
    }
}

/// Whether a turn is drawn as the markup it was written in: what an agent says,
/// unless the source is asked for. A prompt never is: an asterisk in it stays one.
pub open spec fn rendered(turn: Turn, raw: bool) -> bool {
    turn.role@ == "assistant"@ && !raw
}

/// What a turn says.
pub open spec fn said_lines(turn: Turn, drawn: Drawn, width: int, raw: bool) -> Seq<LineView> {
    let texts = wrapped(turn.text@, body_width(width));
    let n = texts.len() as int;
    if turn.role@ == "user"@ {
        typed_lines(texts, said_ink(turn), n)
    } else if rendered(turn, raw) {
        moved_in(drawn.reply.lines@)
    } else {
        inked(texts, "  "@, said_ink(turn), n)
    }
}

/// The rows of the first `n` tools of a turn.
pub open spec fn tools_rows(tools: Seq<ToolUse>, drawn: Seq<DrawnTool>, width: int, open: bool, n: int) -> Seq<LineView>
    decreases n,
{
    if n <= 0 {
        nothing()
    } else {
        tools_rows(tools, drawn, width, open, n - 1) + tool_rows(tools[n - 1], drawn[n - 1], width, open)
    }
}

/// When a turn was said, where its timestamp can be read.
pub open spec fn said_at(turn: Turn) -> Option<Seq<char>> {
    if moment(turn.ts@) is Some {
        Some(turn.ts@)
    } else {
        None
    }
}

/// One turn, laid out to `width`.
pub open spec fn turn_of(s: Session, turn: Turn, drawn: Drawn, width: int, raw: bool, open: bool) -> BlockView {
    if turn.kind@ == "compaction"@ {
        block(Some(turn.seq), open, false, None, nothing().push(seam(width)).push(blank()), Seq::empty())
    } else {
        let t = nothing().push(speaker(s, turn)) + said_lines(turn, drawn, width, raw);
        let t = if turn.clipped {
            t.push(blank().with("  … cut here; the transcript has the rest"@, Ink::Dim))
        } else {
            t
        };
        let t = t + tools_rows(turn.tools@, drawn.tools@, width, open, turn.tools@.len() as int);
        block(
            Some(turn.seq),
            open,
            turn.tools@.len() > 0,
            said_at(turn),
            t.push(blank()),
            if rendered(turn, raw) {
                moved_links(links_view(drawn.reply.links@))
            } else {
                Seq::empty()
            },
        )
    }
}

/// Whether a turn's drawing fits the turn: a drawing for each tool, and links
/// that leave room to be moved.
pub open spec fn drawn_for(drawn: Drawn, turn: Turn) -> bool {
    &&& drawn.tools@.len() == turn.tools@.len()
    &&& forall|i: int|
        0 <= i < drawn.reply.links@.len() ==> (#[trigger] drawn.reply.links@[i]).line < usize::MAX
            && drawn.reply.links@[i].from <= u16::MAX - 2 && drawn.reply.links@[i].to <= u16::MAX - 2
}

fn speaker_of(s: &Session, turn: &Turn) -> (r: Line)
    ensures
        r@ == speaker(*s, *turn),
{
    let mut l = Line::new();
    if same(turn.role.as_str(), "user") {
        l.put_bold("● you", Ink::Accent);
    } else if same(turn.role.as_str(), "assistant") {
        if same(turn.kind.as_str(), "reasoning") {
            let who = cat(s.type_label.as_str(), " · thinking");
            l.put(cat("● ", who.as_str()).as_str(), kind_ink_of(s));
        } else {
            l.put_bold(cat("● ", s.type_label.as_str()).as_str(), kind_ink_of(s));
        }
    } else {
        l.put("● system", Ink::Dim);
    }
    if moment_of(turn.ts.as_str()).is_some() {
        l.put(cat("  ", turn.clock.as_str()).as_str(), Ink::Dim);
    }
    l
}

fn move_in(lines: &Text) -> (r: Text)
    ensures
        r@ == moved_in(lines@),
{
    let mut out = Text::new();
    let mut i: usize = 0;
    assert(out@ =~= moved_in(lines@).take(0));
    while i < lines.lines.len()
        invariant
            i <= lines.lines@.len(),
            out@ == moved_in(lines@).take(i as int),
        decreases lines.lines@.len() - i,
    {
        assert(lines@[i as int] == lines.lines@[i as int]@);
        let mut rest = lines.lines[i].copy();
        let mut l = line_of("  ", Ink::Plain);
        l.append(&mut rest);
        l.failed = lines.lines[i].failed;
        l.selected = lines.lines[i].selected;
        assert(l@.spans =~= seq![SpanView { text: "  "@, ink: Ink::Plain, bold: false }] + lines@[i as int].spans);
        out.push(l);
        assert(out@ =~= moved_in(lines@).take(i + 1));
        i += 1;
    }
    assert(moved_in(lines@).take(i as int) =~= moved_in(lines@));
    out
}

fn move_links(links: &Vec<Link>) -> (r: Vec<Link>)
    requires
        forall|i: int|
            0 <= i < links@.len() ==> (#[trigger] links@[i]).line < usize::MAX && links@[i].from <= u16::MAX - 2
                && links@[i].to <= u16::MAX - 2,
    ensures
        links_view(r@) == moved_links(links_view(links@)),
{
    let mut out: Vec<Link> = Vec::new();
    let ghost want = moved_links(links_view(links@));
    let mut i: usize = 0;
    assert(links_view(out@) =~= want.take(0));
    while i < links.len()
        invariant
            i <= links@.len(),
            want == moved_links(links_view(links@)),
            forall|i: int|
                0 <= i < links@.len() ==> (#[trigger] links@[i]).line < usize::MAX && links@[i].from <= u16::MAX - 2
                    && links@[i].to <= u16::MAX - 2,
            links_view(out@) == want.take(i as int),
        decreases links@.len() - i,
    {
        let l = &links[i];
        assert(links_view(links@)[i as int] == l@);
        let ghost was = out@;
        let one = Link { line: l.line + 1, from: l.from + 2, to: l.to + 2, url: l.url.clone() };
        let ghost moved = one@;
        out.push(one);
        assert(links_view(out@) =~= links_view(was).push(moved));
        assert(want[i as int] == moved);
        assert(links_view(out@) =~= want.take(i + 1));
        i += 1;
    }
    assert(want.take(i as int) =~= want);
    out
}

fn typed(texts: &Vec<String>, ink: Ink) -> (r: Text)
    ensures
        r@ == typed_lines(words(texts@), ink, texts@.len() as int),
{
    let ghost says = words(texts@);
    let mut t = Text::new();
    let mut i: usize = 0;
    while i < texts.len()
        invariant
            i <= texts@.len(),
            says == words(texts@),
            t@ == typed_lines(says, ink, i as int),
        decreases texts@.len() - i,
    {
        assert(says[i as int] == texts@[i as int]@);
        let mut l = line_of("▎ ", Ink::Accent);
        l.put(texts[i].as_str(), ink);
        t.push(l);
        i += 1;
    }
    t
}

fn said(turn: &Turn, drawn: &Drawn, width: usize, raw: bool) -> (r: Text)
    ensures
        r@ == said_lines(*turn, *drawn, width as int, raw),
{
    let ink = if same(turn.kind.as_str(), "reasoning") {
        Ink::Thought
    } else {
        Ink::Value
    };
    let body: usize = if width < 3 {
        1
    } else {
        width - 2
    };
    if same(turn.role.as_str(), "user") {
        let texts = wrap(turn.text.as_str(), body);
        assert(words(texts@).len() == texts@.len());
        typed(&texts, ink)
    } else if same(turn.role.as_str(), "assistant") && !raw {
        move_in(&drawn.reply.lines)
    } else {
        let texts = wrap(turn.text.as_str(), body);
        assert(words(texts@).len() == texts@.len());
        let mut t = Text::new();
        put_inked(&mut t, &texts, "  ", ink);
        assert(t@ =~= inked(words(texts@), "  "@, ink, texts@.len() as int));
        t
    }
}

/// One turn, laid out to `width`.
///
/// A header names the speaker in its own colour, with the local time it was said.
/// What was typed sits behind a bar, so that a prompt is findable at a glance in a
/// page of replies. Each tool call is one row under the text unless `open`.
pub fn turn_block(s: &Session, turn: &Turn, drawn: &Drawn, width: usize, raw: bool, open: bool) -> (r: Block)
    requires
        drawn_for(*drawn, *turn),
    ensures
        r@ == turn_of(*s, *turn, *drawn, width as int, raw, open),
{
    let mut links: Vec<Link> = Vec::new();
    assert(links_view(links@) =~= Seq::<LinkView>::empty());
    let mut t = Text::new();
    if same(turn.kind.as_str(), "compaction") {
        let side: usize = width.saturating_sub(11) / 2;
        let mut text = cat(repeat('─', side).as_str(), " compacted ");
        text.append(repeat('─', side).as_str());
        t.push(line_of(text.as_str(), Ink::Dim));
        t.gap();
        return finish(Some(turn.seq), open, false, None, t, links);
    }
    t.push(speaker_of(s, turn));
    t.append(said(turn, drawn, width, raw));
    if same(turn.role.as_str(), "assistant") && !raw {
        links = move_links(&drawn.reply.links);
    }
    if turn.clipped {
        t.push(line_of("  … cut here; the transcript has the rest", Ink::Dim));
    }
    let ghost was = t@;
    let mut i: usize = 0;
    assert(was + tools_rows(turn.tools@, drawn.tools@, width as int, open, 0) =~= was);
    while i < turn.tools.len()
        invariant
            i <= turn.tools@.len(),
            drawn.tools@.len() == turn.tools@.len(),
            t@ == was + tools_rows(turn.tools@, drawn.tools@, width as int, open, i as int),
        decreases turn.tools@.len() - i,
    {
        t.append(tool_lines(&turn.tools[i], &drawn.tools[i], width, open));
        assert(t@ =~= was + tools_rows(turn.tools@, drawn.tools@, width as int, open, i + 1));
        i += 1;
    }
    t.gap();
    let ts = if moment_of(turn.ts.as_str()).is_some() {
        Some(turn.ts.clone())
    } else {
        None
    };
    finish(Some(turn.seq), open, turn.tools.len() > 0, ts, t, links)
}

proof fn a_tool_has_its_rows(tools: Seq<ToolUse>, drawn: Seq<DrawnTool>, width: int, open: bool, n: int, k: int)
    requires
        0 <= k < n <= tools.len(),
        n <= drawn.len(),
    ensures
        ({
            let from = tools_rows(tools, drawn, width, open, k).len() as int;
            let own = tool_rows(tools[k], drawn[k], width, open);
            &&& from + own.len() <= tools_rows(tools, drawn, width, open, n).len()
            &&& tools_rows(tools, drawn, width, open, n).subrange(from, from + own.len()) == own
        }),
    decreases n,
{
    let from = tools_rows(tools, drawn, width, open, k).len() as int;
    let own = tool_rows(tools[k], drawn[k], width, open);
    let all = tools_rows(tools, drawn, width, open, n);
    let before = tools_rows(tools, drawn, width, open, n - 1);
    if k < n - 1 {
        a_tool_has_its_rows(tools, drawn, width, open, n - 1, k);
        assert(all.subrange(from, from + own.len()) =~= before.subrange(from, from + own.len()));
    } else {
        assert(all.subrange(from, from + own.len()) =~= own);
    }
}

/// Every tool a turn used has its rows, with its own drawing, in the order they were
/// used in.
pub proof fn every_tool_has_its_rows(tools: Seq<ToolUse>, drawn: Seq<DrawnTool>, width: int, open: bool, k: int)
    requires
        0 <= k < tools.len(),
        tools.len() == drawn.len(),
    ensures
        ({
            let from = tools_rows(tools, drawn, width, open, k).len() as int;
            let own = tool_rows(tools[k], drawn[k], width, open);
            tools_rows(tools, drawn, width, open, tools.len() as int).subrange(from, from + own.len()) == own
        }),
{
    a_tool_has_its_rows(tools, drawn, width, open, tools.len() as int, k);
}

/// A tool's row says whether it failed, what it is, what it changed and, while it is
/// closed, how much more there is; one that has no result yet is said to run.
pub proof fn a_tools_row_is_its_own(tool: ToolUse, width: int, open: bool)
    ensures
        ({
            let spans = tool_line(tool, width, open).spans;
            let more = more_rows(tool);
            &&& crate::text::ends(spans[0].text, tool.name@)
            &&& tool.failed <==> spans[0].ink == Ink::Failed
            &&& tool.added == 0 && tool.removed == 0 ==> spans[2].text.len() == 0
            &&& tool.added > 0 || tool.removed > 0 ==> spans[2].text == "  +"@ + dec(tool.added as nat) + " −"@ + dec(
                tool.removed as nat,
            )
            &&& tool.result is None ==> spans[3].text == "  · running"@
            &&& tool.result is Some && (open || more == 0) ==> spans[3].text.len() == 0
            &&& tool.result is Some && !open && more > 1 ==> spans[3].text == "  · "@ + dec(more) + " lines"@
            &&& tool.result is Some && !open && more == 1 ==> spans[3].text == "  · 1 line"@
        }),
{
    reveal_strlit("");
    let head = tool_head(tool, open);
    assert(head.skip(head.len() - tool.name@.len()) =~= tool.name@);
}

/// A closed tool is one row; an open one has what it was asked, what it answered and
/// what it changed under it, in that order.
pub proof fn an_open_tool_shows_everything(tool: ToolUse, drawn: DrawnTool, width: int)
    ensures
        tool_rows(tool, drawn, width, false) == seq![tool_line(tool, width, false)],
        tool.full is Some && tool.result is Some ==> tool_rows(tool, drawn, width, true) == seq![
            tool_line(tool, width, true),
        ] + drawn.full@ + drawn.result@ + change_lines(tool.diff@, tool.diff@.len() as int),
        tool.full is None && tool.result is Some ==> tool_rows(tool, drawn, width, true) == seq![
            tool_line(tool, width, true),
        ] + drawn.result@ + change_lines(tool.diff@, tool.diff@.len() as int),
{
    assert(tool_rows(tool, drawn, width, false) =~= seq![tool_line(tool, width, false)]);
    let one = seq![tool_line(tool, width, true)];
    assert(nothing().push(tool_line(tool, width, true)) =~= one);
}

/// A turn is said by who said it: the user, the agent, or neither; and thinking is told
/// from speaking.
pub proof fn a_turn_is_said_by_its_speaker(s: Session, turn: Turn)
    ensures
        turn.role@ == "user"@ ==> speaker(s, turn).spans[0].text == "● you"@ && speaker(s, turn).spans[0].ink == Ink::Accent,
        turn.role@ == "assistant"@ && turn.kind@ != "reasoning"@ ==> speaker(s, turn).spans[0].text == "● "@ + s.type_label@
            && speaker(s, turn).spans[0].ink == kind_ink(s),
        turn.role@ == "assistant"@ && turn.kind@ == "reasoning"@ ==> speaker(s, turn).spans[0].text == "● "@ + (
        s.type_label@ + " · thinking"@),
        turn.role@ != "assistant"@ && turn.role@ != "user"@ ==> speaker(s, turn).spans[0].text == "● system"@,
        moment(turn.ts@) is Some ==> speaker(s, turn).spans[1].text == "  "@ + turn.clock@,
        moment(turn.ts@) is None ==> speaker(s, turn).spans.len() == 1,
        turn.kind@ == "reasoning"@ <==> said_ink(turn) == Ink::Thought,
{
    reveal_strlit("user");
    reveal_strlit("assistant");
    assert("user"@.len() == 4 && "assistant"@.len() == 9);
}

/// A link of a reply stays over the words it was on: the reply's rows are moved under
/// the header and in by two cells, and the link with them.
pub proof fn a_link_moves_with_its_words(lines: Seq<LineView>, links: Seq<LinkView>, k: int)
    requires
        0 <= k < links.len(),
        0 <= links[k].line < lines.len(),
        0 <= links[k].from <= links[k].to <= lines[links[k].line].words().len(),
    ensures
        ({
            let l = moved_links(links)[k];
            let row = moved_in(lines)[l.line - 1];
            &&& l.url == links[k].url
            &&& row.words().subrange(l.from, l.to) == lines[links[k].line].words().subrange(links[k].from, links[k].to)
        }),
{
    let line = lines[links[k].line];
    let first = seq![SpanView { text: "  "@, ink: Ink::Plain, bold: false }];
    words_follow(first, line.spans);
    reveal_strlit("  ");
    assert(first.drop_last() =~= Seq::<SpanView>::empty());
    assert(crate::styled::words_of(Seq::<SpanView>::empty()).len() == 0);
    assert(crate::styled::words_of(first) =~= "  "@);
    let l = moved_links(links)[k];
    let row = moved_in(lines)[l.line - 1];
    assert(row.words() == "  "@ + line.words());
    assert(row.words().subrange(l.from, l.to) =~= line.words().subrange(links[k].from, links[k].to));
}

proof fn words_follow(a: Seq<SpanView>, b: Seq<SpanView>)
    ensures
        crate::styled::words_of(a + b) == crate::styled::words_of(a) + crate::styled::words_of(b),
    decreases b.len(),
{
    if b.len() > 0 {
        words_follow(a, b.drop_last());
        assert((a + b).drop_last() =~= a + b.drop_last());
        assert((a + b).last() == b.last());
        assert(crate::styled::words_of(a + b) =~= crate::styled::words_of(a) + crate::styled::words_of(b));
    } else {
        assert(a + b =~= a);
        assert(crate::styled::words_of(b).len() == 0);
        assert(crate::styled::words_of(a) + crate::styled::words_of(b) =~= crate::styled::words_of(a));
    }
}

/// What is lit is what is found and nothing else: a character of the row is lit where a
/// match covers it.
pub proof fn what_is_lit_is_found(text: Seq<char>, ink: Ink, bold: bool, found: Seq<int>, len: int, at: int, k: int)
    requires
        0 <= k < split(text, ink, bold, found, len, at).len(),
    ensures
        ({
            let p = split(text, ink, bold, found, len, at);
            &&& p[k].text.len() > 0
            &&& p[k].ink == ink
            &&& p[k].bold == bold
            &&& exists|from: int|
                #![trigger text.subrange(from, from + p[k].text.len())]
                {
                    &&& 0 <= from
                    &&& from + p[k].text.len() <= text.len()
                    &&& p[k].text == text.subrange(from, from + p[k].text.len())
                    &&& forall|i: int|
                        from <= i < from + p[k].text.len() ==> is_lit(found, len, #[trigger] (at + i)) == p[k].lit
                }
            &&& k + 1 == p.len() ==> p[k].lit == is_lit(found, len, at + text.len() - 1) && p[k].text.len() <= text.len()
                && p[k].text == text.subrange(text.len() - p[k].text.len(), text.len() as int)
        }),
    decreases text.len(),
{
    let p = split(text, ink, bold, found, len, at);
    if text.len() > 0 {
        let head = text.drop_last();
        let before = split(head, ink, bold, found, len, at);
        let on = is_lit(found, len, at + text.len() - 1);
        let n = text.len() as int;
        if before.len() > 0 && before.last().lit == on {
            what_is_lit_is_found(head, ink, bold, found, len, at, k);
            let m = before[k].text.len() as int;
            let from = choose|from: int|
                #![trigger head.subrange(from, from + m)]
                {
                    &&& 0 <= from
                    &&& from + m <= head.len()
                    &&& before[k].text == head.subrange(from, from + m)
                    &&& forall|i: int| from <= i < from + m ==> is_lit(found, len, #[trigger] (at + i)) == before[k].lit
                };
            if k < before.len() - 1 {
                assert(p[k] == before[k]);
                assert(text.subrange(from, from + m) =~= head.subrange(from, from + m));
            } else {
                let f = n - 1 - m;
                last_run_is_lit_alike(head, ink, bold, found, len, at);
                assert(p[k].text == before[k].text.push(text.last()));
                assert(text.subrange(f, f + m + 1) =~= head.subrange(f, f + m).push(text.last()));
                assert(p[k].text == text.subrange(f, f + p[k].text.len()));
                assert forall|i: int| f <= i < f + p[k].text.len() implies is_lit(found, len, #[trigger] (at + i)) == p[k].lit by {
                    if i == n - 1 {
                        assert(at + i == at + text.len() - 1);
                    }
                }
            }
        } else if k < before.len() {
            what_is_lit_is_found(head, ink, bold, found, len, at, k);
            let m = before[k].text.len() as int;
            let from = choose|from: int|
                #![trigger head.subrange(from, from + m)]
                {
                    &&& 0 <= from
                    &&& from + m <= head.len()
                    &&& before[k].text == head.subrange(from, from + m)
                    &&& forall|i: int| from <= i < from + m ==> is_lit(found, len, #[trigger] (at + i)) == before[k].lit
                };
            assert(p[k] == before[k]);
            assert(text.subrange(from, from + m) =~= head.subrange(from, from + m));
        } else {
            assert(p[k].text =~= text.subrange(n - 1, n));
            assert forall|i: int| n - 1 <= i < n implies is_lit(found, len, #[trigger] (at + i)) == p[k].lit by {
                assert(at + i == at + text.len() - 1);
            }
            assert(text.subrange(n - 1, n - 1 + p[k].text.len()) == p[k].text);
        }
    }
}

proof fn last_run_is_lit_alike(text: Seq<char>, ink: Ink, bold: bool, found: Seq<int>, len: int, at: int)
    requires
        text.len() > 0,
    ensures
        ({
            let p = split(text, ink, bold, found, len, at);
            let m = p.last().text.len() as int;
            &&& p.len() > 0
            &&& 1 <= m <= text.len()
            &&& p.last().text == text.subrange(text.len() - m, text.len() as int)
            &&& forall|i: int| text.len() - m <= i < text.len() ==> is_lit(found, len, #[trigger] (at + i)) == p.last().lit
        }),
    decreases text.len(),
{
    let p = split(text, ink, bold, found, len, at);
    let head = text.drop_last();
    let n = text.len() as int;
    if n > 1 {
        last_run_is_lit_alike(head, ink, bold, found, len, at);
        let before = split(head, ink, bold, found, len, at);
        let on = is_lit(found, len, at + n - 1);
        let m = before.last().text.len() as int;
        if before.last().lit == on {
            assert(p.last().text == before.last().text.push(text.last()));
            assert(text.subrange(n - 1 - m, n) =~= head.subrange(n - 1 - m, n - 1).push(text.last()));
            assert forall|i: int| n - m - 1 <= i < n implies is_lit(found, len, #[trigger] (at + i)) == p.last().lit by {
                if i == n - 1 {
                    assert(at + i == at + n - 1);
                }
            }
        } else {
            assert(p.last().text =~= text.subrange(n - 1, n));
            assert forall|i: int| n - 1 <= i < n implies is_lit(found, len, #[trigger] (at + i)) == p.last().lit by {
                assert(at + i == at + n - 1);
            }
        }
    } else {
        assert(split(head, ink, bold, found, len, at).len() == 0);
        assert(p.last().text =~= text.subrange(0, 1));
        assert forall|i: int| 0 <= i < 1 implies is_lit(found, len, #[trigger] (at + i)) == p.last().lit by {
            assert(at + i == at + n - 1);
        }
    }
}

} // verus!
