//! What is believed of other people's code.
//!
//! Each function here makes one call and turns its result into plain values. What
//! its contract says is what that code's source and documentation show; nothing
//! here is proved.

use vstd::prelude::*;

use crate::text::words;

verus! {

/// `String::push` of std: the character goes behind what is there.
pub assume_specification[ String::push ](s: &mut String, c: char)
    ensures
        final(s)@ == old(s)@.push(c),
;

/// The moment a timestamp names: seconds since 1970, and nanoseconds into the
/// second. `None` where it is not a timestamp.
pub uninterp spec fn moment(ts: Seq<char>) -> Option<(i64, u32)>;

/// `chrono::DateTime::parse_from_rfc3339`, read out by `timestamp` and
/// `timestamp_subsec_nanos`.
///
/// The result is a function of the text alone: the offset is in the text, and
/// the machine's time zone plays no part.
#[verifier::external_body]
pub(crate) fn moment_of(ts: &str) -> (r: Option<(i64, u32)>)
    ensures
        r == moment(ts@),
{
    let parsed = chrono::DateTime::parse_from_rfc3339(ts).ok()?;
    Some((parsed.timestamp(), parsed.timestamp_subsec_nanos()))
}

/// How many modules wide the smallest code is that holds `url` with the least
/// error correction. `None` where no code is large enough.
pub uninterp spec fn qr_modules(url: Seq<char>) -> Option<usize>;

/// `qrcode::QrCode::with_error_correction_level` at the lowest level, read out
/// by `width`.
///
/// Version `v` of the forty there are is `4 * v + 17` modules wide, which is
/// where the bounds come from.
#[verifier::external_body]
pub(crate) fn qr_modules_of(url: &str) -> (r: Option<usize>)
    ensures
        r == qr_modules(url@),
        r matches Some(n) ==> 21 <= n <= 177,
{
    let code = qrcode::QrCode::with_error_correction_level(url.as_bytes(), qrcode::EcLevel::L).ok()?;
    Some(code.width())
}

/// The names of the members of the object that a JSON text holds at `path`, a
/// member of a member and so on. `None` where the text is not JSON, or has no
/// object there.
pub uninterp spec fn json_members(text: Seq<char>, path: Seq<Seq<char>>) -> Option<Seq<Seq<char>>>;

/// Strings that may be missing, as sequences.
pub open spec fn maybe_words(v: Option<Vec<String>>) -> Option<Seq<Seq<char>>> {
    match v {
        Some(v) => Some(words(v@)),
        None => None,
    }
}

/// `serde_json::from_str` into a `serde_json::Value`, followed along `path` by
/// `Value::get`, read out by `as_object` and its `keys`.
///
/// Which keys an object has, and in which order they come, depends on the text
/// alone.
#[verifier::external_body]
pub(crate) fn json_members_of(text: &str, path: &Vec<String>) -> (r: Option<Vec<String>>)
    ensures
        maybe_words(r) == json_members(text@, words(path@)),
{
    let value: serde_json::Value = serde_json::from_str(text).ok()?;
    let at = path.iter().try_fold(&value, |at, key| at.get(key.as_str()))?;
    Some(at.as_object()?.keys().cloned().collect())
}

/// The string that a JSON text holds at `path`. `None` where the text is not
/// JSON, or has no string there.
pub uninterp spec fn json_text(text: Seq<char>, path: Seq<Seq<char>>) -> Option<Seq<char>>;

/// A string that may be missing, as a sequence.
pub open spec fn maybe_text(t: Option<String>) -> Option<Seq<char>> {
    match t {
        Some(s) => Some(s@),
        None => None,
    }
}

/// `serde_json::from_str` into a `serde_json::Value`, followed along `path` by
/// `Value::get`, read out by `as_str`.
#[verifier::external_body]
pub(crate) fn json_text_of(text: &str, path: &Vec<String>) -> (r: Option<String>)
    ensures
        maybe_text(r) == json_text(text@, words(path@)),
{
    let value: serde_json::Value = serde_json::from_str(text).ok()?;
    let at = path.iter().try_fold(&value, |at, key| at.get(key.as_str()))?;
    at.as_str().map(String::from)
}

/// A character's lower case; the first character of it where that is more than
/// one.
pub uninterp spec fn lowered(c: char) -> char;

/// `char::to_lowercase` of std, of which the first character is kept. It always
/// has one.
#[verifier::external_body]
pub(crate) fn lower_char(c: char) -> (r: char)
    ensures
        r == lowered(c),
{
    c.to_lowercase().next().unwrap_or(c)
}

/// How many cells of a terminal a text takes up.
pub uninterp spec fn cells(text: Seq<char>) -> usize;

/// `ratatui::text::Span::width` of the text as it is: a wide character takes up
/// two cells and a combining one none.
#[verifier::external_body]
pub(crate) fn cells_of(text: &str) -> (r: usize)
    ensures
        r == cells(text@),
{
    ratatui::text::Span::raw(text).width()
}

/// A string as the settings file holds it.
pub uninterp spec fn toml_text(text: Seq<char>) -> Seq<char>;

/// `toml_edit::Value::from` on a string, written out by `to_string`.
///
/// A value made so has no decoration of its own, and how it is quoted depends on
/// the text alone.
#[verifier::external_body]
pub(crate) fn toml_text_of(text: &str) -> (r: String)
    ensures
        r@ == toml_text(text@),
{
    toml_edit::Value::from(text).to_string()
}

/// `toml_edit::Value::from` on a `bool`, written out by `to_string`: the word
/// itself.
#[verifier::external_body]
pub(crate) fn toml_flag_of(on: bool) -> (r: String)
    ensures
        r@ == (if on {
            "true"@
        } else {
            "false"@
        }),
{
    toml_edit::Value::from(on).to_string()
}

/// A colour of a cell.
#[derive(Debug, Clone, Copy, PartialEq, Eq, Structural)]
pub enum Hue {
    /// The terminal's own.
    Plain,
    Indexed(u8),
    Rgb(u8, u8, u8),
}

/// What is in a cell of a terminal, and how it is drawn.
pub struct Cell {
    pub text: String,
    pub fg: Hue,
    pub bg: Hue,
    pub bold: bool,
    pub dim: bool,
    pub italic: bool,
    pub underline: bool,
    pub inverse: bool,
}

/// What is in a cell of a terminal, and how it is drawn.
#[verifier::ext_equal]
pub struct CellView {
    pub text: Seq<char>,
    pub fg: Hue,
    pub bg: Hue,
    pub bold: bool,
    pub dim: bool,
    pub italic: bool,
    pub underline: bool,
    pub inverse: bool,
}

impl View for Cell {
    type V = CellView;

    open spec fn view(&self) -> CellView {
        CellView {
            text: self.text@,
            fg: self.fg,
            bg: self.bg,
            bold: self.bold,
            dim: self.dim,
            italic: self.italic,
            underline: self.underline,
            inverse: self.inverse,
        }
    }
}

/// The cells of a terminal, kept by a `vt100::Parser`.
#[verifier::external_body]
pub struct Terminal {
    parser: vt100::Parser,
}

/// What was done to a terminal, from the beginning: which size it had, and what was
/// written to it at that size.
pub uninterp spec fn history(terminal: Terminal) -> Seq<(u16, u16, Seq<u8>)>;

/// What is in a cell of a terminal after all that was done to it.
pub uninterp spec fn cell_after(done: Seq<(u16, u16, Seq<u8>)>, row: u16, col: u16) -> CellView;

/// Where the cursor of a terminal is after all that was done to it.
pub uninterp spec fn cursor_after(done: Seq<(u16, u16, Seq<u8>)>) -> (u16, u16);

/// Whether the cursor of a terminal is hidden after all that was done to it.
pub uninterp spec fn hidden_after(done: Seq<(u16, u16, Seq<u8>)>) -> bool;

/// Whether a terminal of `rows` by `cols` takes whatever is written to it.
pub open spec fn replayable(rows: u16, cols: u16) -> bool {
    rows >= 2 && 3 <= cols <= 65527
}

/// Whether a terminal that all this was done to takes whatever is written to it: it
/// never had a size at which it would not, and never became narrower.
pub open spec fn sound(done: Seq<(u16, u16, Seq<u8>)>) -> bool {
    &&& done.len() > 0
    &&& forall|i: int| 0 <= i < done.len() ==> replayable((#[trigger] done[i]).0, done[i].1)
    &&& forall|i: int, j: int| 0 <= i < j < done.len() ==> (#[trigger] done[i]).1 <= (#[trigger] done[j]).1
}

/// Whether a cell is on a terminal that all this was done to.
pub open spec fn on_it(done: Seq<(u16, u16, Seq<u8>)>, row: u16, col: u16) -> bool {
    row < done.last().0 && col < done.last().1
}

/// `vt100::Parser::new`, without scrollback: a terminal of that size, nothing
/// written to it.
///
/// A line that wraps on the last row scrolls, and the row it came from is one up,
/// so there have to be two rows. A character can be three columns wide, and its
/// width is subtracted from the number of columns. A tab goes eight columns on
/// before it is brought back to the last one, and the cursor may stand behind
/// that, so there is a most, too.
#[verifier::external_body]
pub(crate) fn new_terminal(rows: u16, cols: u16) -> (r: Terminal)
    requires
        replayable(rows, cols),
    ensures
        history(r) == seq![(rows, cols, Seq::<u8>::empty())],
{
    Terminal { parser: vt100::Parser::new(rows, cols, 0) }
}

/// `vt100::Screen::set_size`: the terminal has that size from then on.
///
/// A row that becomes shorter can lose half of a wide character, and the other half
/// being written over is not survived. So no terminal is made narrower.
#[verifier::external_body]
pub(crate) fn resize_terminal(terminal: &mut Terminal, rows: u16, cols: u16)
    requires
        replayable(rows, cols),
        sound(history(*old(terminal))),
        history(*old(terminal)).last().1 <= cols,
    ensures
        history(*final(terminal)) == history(*old(terminal)).push((rows, cols, Seq::<u8>::empty())),
{
    terminal.parser.screen_mut().set_size(rows, cols);
}

/// `vt100::Parser::process`: the bytes are written to the terminal as it is.
#[verifier::external_body]
pub(crate) fn write_terminal(terminal: &mut Terminal, bytes: &Vec<u8>)
    requires
        sound(history(*old(terminal))),
    ensures
        history(*final(terminal)) == history(*old(terminal)).push(
            (history(*old(terminal)).last().0, history(*old(terminal)).last().1, bytes@),
        ),
{
    terminal.parser.process(bytes);
}

/// `vt100::Screen::cell`, with what the cell holds moved over. There is one for
/// every row and column of the size the terminal has, and what is in it depends on
/// nothing but what was done to the terminal.
#[verifier::external_body]
pub(crate) fn cell_of(terminal: &Terminal, row: u16, col: u16) -> (r: Option<Cell>)
    requires
        sound(history(*terminal)),
    ensures
        match r {
            Some(c) => on_it(history(*terminal), row, col) && c@ == cell_after(history(*terminal), row, col),
            None => !on_it(history(*terminal), row, col),
        },
{
    let hue = |c: vt100::Color| match c {
        vt100::Color::Default => Hue::Plain,
        vt100::Color::Idx(i) => Hue::Indexed(i),
        vt100::Color::Rgb(r, g, b) => Hue::Rgb(r, g, b),
    };
    let c = terminal.parser.screen().cell(row, col)?;
    let (fg, bg) = (hue(c.fgcolor()), hue(c.bgcolor()));
    let (bold, dim, italic) = (c.bold(), c.dim(), c.italic());
    let (underline, inverse) = (c.underline(), c.inverse());
    Some(Cell { text: c.contents().to_string(), fg, bg, bold, dim, italic, underline, inverse })
}

/// `vt100::Screen::cursor_position`, which depends on nothing but what was done to
/// the terminal.
#[verifier::external_body]
pub(crate) fn cursor_of(terminal: &Terminal) -> (r: (u16, u16))
    ensures
        r == cursor_after(history(*terminal)),
{
    terminal.parser.screen().cursor_position()
}

/// `vt100::Screen::hide_cursor`, which depends on nothing but what was done to the
/// terminal.
#[verifier::external_body]
pub(crate) fn hidden_of(terminal: &Terminal) -> (r: bool)
    ensures
        r == hidden_after(history(*terminal)),
{
    terminal.parser.screen().hide_cursor()
}

} // verus!
