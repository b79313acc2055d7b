//! Text with an ink on it: what the panels are written in.
//!
//! An [`Ink`] names what a piece of text is, not a colour. Which colour a
//! "value" or a "high cost" has is the theme's to say when the text is drawn.

use vstd::prelude::*;

use crate::model::Provider;

verus! {

/// What a piece of text is written in.
#[derive(Debug, Clone, Copy, PartialEq, Eq, Structural)]
pub enum Ink {
    /// No ink of its own.
    Plain,
    Label,
    Value,
    Dim,
    Dimmer,
    Header,
    Title,
    /// Cheap, healthy, added.
    Low,
    /// Worth a look.
    Mid,
    /// Expensive, failed, removed.
    High,
    Accent,
    Name,
    BorderHi,
    PanelTitle,
    Chart(u8),
    Gray(u8),
    /// An agent's own colour.
    Agent(Provider),
    DesktopCode,
    DesktopCowork,
    /// By the model the text names.
    Model,
    /// By the tool the text names.
    Tool,
    /// By an amount of money, in billionths of a dollar.
    Amount(u128),
    /// By a load, in tenths of a percent.
    Cpu(u64),
    /// By a share in percent.
    Share(u128),
    Selected,
    KeyCap,
    Border,
    Link,
    Canvas,
    /// An agent thinking out loud.
    Thought,
    /// Something that failed.
    Failed,
    /// A filter that is on.
    Filter,
    /// The panel on show, underlined.
    OpenTab,
    /// Something that wants an answer, lit.
    Alarm,
    /// A colour a tab can be given.
    Hue(u8),
}

/// A piece of text in one ink.
pub struct Span {
    pub text: String,
    pub ink: Ink,
    pub bold: bool,
}

/// What a [`Span`] says.
#[verifier::ext_equal]
pub struct SpanView {
    pub text: Seq<char>,
    pub ink: Ink,
    pub bold: bool,
}

impl View for Span {
    type V = SpanView;

    open spec fn view(&self) -> SpanView {
        SpanView { text: self.text@, ink: self.ink, bold: self.bold }
    }
}

/// A line: spans side by side, on a washed background when it reports a failure,
/// and lit where the cursor is on it.
pub struct Line {
    pub spans: Vec<Span>,
    pub failed: bool,
    pub selected: bool,
}

/// What a [`Line`] says.
#[verifier::ext_equal]
pub struct LineView {
    pub spans: Seq<SpanView>,
    pub failed: bool,
    pub selected: bool,
}

impl View for Line {
    type V = LineView;

    open spec fn view(&self) -> LineView {
        LineView { spans: self.spans@.map_values(|s: Span| s@), failed: self.failed, selected: self.selected }
    }
}

/// An empty line.
pub open spec fn blank() -> LineView {
    LineView { spans: Seq::empty(), failed: false, selected: false }
}

impl LineView {
    /// The line with `text` in `ink` behind what it says.
    pub open spec fn with(self, text: Seq<char>, ink: Ink) -> LineView {
        LineView { spans: self.spans.push(SpanView { text, ink, bold: false }), ..self }
    }

    /// The line with `text` in bold `ink` behind what it says.
    pub open spec fn with_bold(self, text: Seq<char>, ink: Ink) -> LineView {
        LineView { spans: self.spans.push(SpanView { text, ink, bold: true }), ..self }
    }

    /// The line with the spans of `other` behind its own.
    pub open spec fn then_line(self, other: LineView) -> LineView {
        LineView { spans: self.spans + other.spans, ..self }
    }

    /// The line, lit where the cursor is on it.
    pub open spec fn lit(self, here: bool) -> LineView {
        LineView { selected: here, ..self }
    }

    /// What the line says, without its inks.
    pub open spec fn words(self) -> Seq<char> {
        words_of(self.spans)
    }
}

/// What the spans say, one behind the other.
pub open spec fn words_of(spans: Seq<SpanView>) -> Seq<char>
    decreases spans.len(),
{
    if spans.len() == 0 {
        Seq::empty()
    } else {
        words_of(spans.drop_last()) + spans.last().text
    }
}

impl Line {
    /// An empty line.
    pub fn new() -> (r: Line)
        ensures
            r@ == blank(),
    {
        let r = Line { spans: Vec::new(), failed: false, selected: false };
        assert(r@.spans =~= blank().spans);
        r
    }

    /// Put a span behind the others.
    pub fn push(&mut self, span: Span)
        ensures
            final(self)@ == (LineView { spans: old(self)@.spans.push(span@), ..old(self)@ }),
    {
        let ghost sv = span@;
        self.spans.push(span);
        assert(self@.spans =~= old(self)@.spans.push(sv));
    }

    /// Put `text` in `ink` behind the others.
    pub fn put(&mut self, text: &str, ink: Ink)
        ensures
            final(self)@ == old(self)@.with(text@, ink),
    {
        self.push(Span { text: text.to_owned(), ink, bold: false });
    }

    /// Put `text` in bold `ink` behind the others.
    pub fn put_bold(&mut self, text: &str, ink: Ink)
        ensures
            final(self)@ == old(self)@.with_bold(text@, ink),
    {
        self.push(Span { text: text.to_owned(), ink, bold: true });
    }

    /// Put the spans of `other` behind its own.
    pub fn append(&mut self, other: &mut Line)
        ensures
            final(self)@ == old(self)@.then_line(old(other)@),
    {
        let ghost a = self.spans@;
        let ghost b = other.spans@;
        self.spans.append(&mut other.spans);
        assert(self.spans@ == a + b);
        assert(self@.spans =~= old(self)@.spans + old(other)@.spans);
    }

    /// Light the line where the cursor is on it.
    pub fn light(&mut self, here: bool)
        ensures
            final(self)@ == old(self)@.lit(here),
    {
        self.selected = here;
    }

    /// A line that says the same.
    pub fn copy(&self) -> (r: Line)
        ensures
            r@ == self@,
    {
        let mut spans: Vec<Span> = Vec::new();
        let mut i: usize = 0;
        while i < self.spans.len()
            invariant
                i <= self.spans@.len(),
                spans@.len() == i,
                forall|j: int| 0 <= j < i ==> (#[trigger] spans@[j])@ == self.spans@[j]@,
            decreases self.spans@.len() - i,
        {
            let s = &self.spans[i];
            spans.push(Span { text: s.text.clone(), ink: s.ink, bold: s.bold });
            i += 1;
        }
        let r = Line { spans, failed: self.failed, selected: self.selected };
        assert(r@.spans =~= self@.spans);
        r
    }

    /// What the line says, without its inks.
    pub fn words(&self) -> (r: String)
        ensures
            r@ == self@.words(),
    {
        let mut s = String::new();
        let mut i: usize = 0;
        while i < self.spans.len()
            invariant
                i <= self.spans@.len(),
                s@ == words_of(self@.spans.take(i as int)),
            decreases self.spans@.len() - i,
        {
            s.append(self.spans[i].text.as_str());
            proof {
                let now = self@.spans.take(i + 1);
                assert(now.drop_last() =~= self@.spans.take(i as int));
                assert(now.last() == self@.spans[i as int]);
            }
            i += 1;
        }
        assert(self@.spans.take(i as int) =~= self@.spans);
        s
    }
}

/// One line of one span.
pub fn line_of(text: &str, ink: Ink) -> (r: Line)
    ensures
        r@ == blank().with(text@, ink),
{
    let mut l = Line::new();
    l.put(text, ink);
    l
}

/// Lines, one under the other.
pub struct Text {
    pub lines: Vec<Line>,
}

impl View for Text {
    type V = Seq<LineView>;

    open spec fn view(&self) -> Seq<LineView> {
        self.lines@.map_values(|l: Line| l@)
    }
}

/// No lines.
pub open spec fn nothing() -> Seq<LineView> {
    Seq::empty()
}

impl Text {
    /// No lines.
    pub fn new() -> (r: Text)
        ensures
            r@ == nothing(),
    {
        let r = Text { lines: Vec::new() };
        assert(r@ =~= nothing());
        r
    }

    /// How many lines there are.
    pub fn len(&self) -> (r: usize)
        ensures
            r == self@.len(),
    {
        self.lines.len()
    }

    /// Put a line under the others.
    pub fn push(&mut self, line: Line)
        ensures
            final(self)@ == old(self)@.push(line@),
    {
        let ghost lv = line@;
        self.lines.push(line);
        assert(self@ =~= old(self)@.push(lv));
    }

    /// Put an empty line under the others.
    pub fn gap(&mut self)
        ensures
            final(self)@ == old(self)@.push(blank()),
    {
        self.push(Line::new());
    }

    /// Put the lines of `more` under these.
    pub fn append(&mut self, more: Text)
        ensures
            final(self)@ == old(self)@ + more@,
    {
        let ghost a = self.lines@;
        let ghost b = more.lines@;
        let mut rest = more;
        self.lines.append(&mut rest.lines);
        assert(self.lines@ == a + b);
        assert(self@ =~= old(self)@ + more@);
    }
}

/// One line of one span, as text.
pub fn note(text: &str, ink: Ink) -> (r: Text)
    ensures
        r@ == nothing().push(blank().with(text@, ink)),
{
    let mut t = Text::new();
    t.push(line_of(text, ink));
    t
}

} // verus!
