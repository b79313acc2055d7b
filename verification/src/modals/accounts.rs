//! Adding an account: its name, its kind, the program that makes it, and what came
//! of it.

use vstd::prelude::*;

use crate::bar::column;
use crate::geometry::Rect;
use crate::keyboard::{Key, KeyCode};
use crate::modals::confirm::{chip_hits, confirm_chips, dialog, Dialog};
use crate::modals::options::{caret, field_line};
use crate::model::Names;
use crate::profiles::{program, program_of, AccountKind, AddAccount};
use crate::styled::{blank, line_of, nothing, Ink, Line, LineView, Text};
use crate::text::{begins, between, cat, chars_of};

verus! {

/// What came of adding an account.
pub open spec fn outcome_lines(outcome: Result<String, String>, names: Names) -> Seq<LineView> {
    match outcome {
        Ok(name) => nothing().push(
            blank().with(" ✓ Saved "@, Ink::Low).with(name@, Ink::Value).with(
                ". Its limits appear in the panel below."@,
                Ink::Dim,
            ),
        ).push(blank().with(" Start an agent on it with p in the launcher, or from a shell:"@, Ink::Dim)).push(
            blank().with("   cctop as "@ + name@ + " "@ + names.command@, Ink::Value),
        ),
        Err(why) => nothing().push(blank().with(" "@ + why@, Ink::Mid)),
    }
}

/// The kinds of account there are.
pub open spec fn kind_lines(name: Seq<char>, names: Names) -> Seq<LineView> {
    seq![
        blank().with(" [f] full login  "@, Ink::Value).with(
            "its own ~/."@ + names.command@ + "-"@ + name + ", everything works"@,
            Ink::Dim,
        ),
        blank().with(" [t] token       "@, Ink::Value).with(
            "shares ~/."@ + names.command@ + " history, but no Remote"@,
            Ink::Dim,
        ),
        blank().with("                  Control or "@ + names.command@ + ".ai connectors"@, Ink::Dim),
    ]
}

/// The question of what the account is called.
pub open spec fn name_lines(name: Seq<char>) -> Seq<LineView> {
    seq![blank().with(" What is it called?"@, Ink::Dim), caret(name)]
}

/// The columns of the dialog.
pub open spec fn dialog_width(flow: AddAccount) -> int {
    if flow.outcome is Some {
        72
    } else if flow.named {
        64
    } else {
        52
    }
}

/// Whether `d` is the dialog of an account that no terminal is open for.
pub open spec fn account_dialog(flow: AddAccount, names: Names, d: Dialog) -> bool {
    match flow.outcome {
        Some(outcome) => {
            &&& d.says("Add a "@ + names.title@ + " account"@, outcome_lines(outcome, names), " [Enter] done"@)
            &&& d.chips@.len() == 1
            &&& d.chips@[0].0@ == "[Enter]"@ && d.chips@[0].1 == Key::plain(KeyCode::Enter)
        },
        None => if flow.named {
            &&& d.says(
                "Add "@ + names.title@ + " account "@ + flow.name@,
                kind_lines(flow.name@, names),
                " [f] full login   [t] token   [Esc] cancel"@,
            )
            &&& d.chips@.len() == 3
            &&& d.chips@[0].0@ == "[f]"@ && d.chips@[0].1 == Key::plain(KeyCode::Char('f'))
            &&& d.chips@[1].0@ == "[t]"@ && d.chips@[1].1 == Key::plain(KeyCode::Char('t'))
            &&& d.chips@[2].0@ == "[Esc]"@ && d.chips@[2].1 == Key::plain(KeyCode::Esc)
        } else {
            &&& d.says(
                "Add a "@ + names.title@ + " account"@,
                name_lines(flow.name@),
                " [Enter] next   [Esc] cancel"@,
            )
            &&& d.chips@.len() == 2
            &&& d.chips@[0].0@ == "[Enter]"@ && d.chips@[0].1 == Key::plain(KeyCode::Enter)
            &&& d.chips@[1].0@ == "[Esc]"@ && d.chips@[1].1 == Key::plain(KeyCode::Esc)
        },
    }
}

/// The dialog of an account being added, and its columns. `None` while its program
/// runs in a terminal.
pub fn add_account(flow: &AddAccount, names: &Names) -> (r: Option<(Dialog, u16)>)
    ensures
        match r {
            Some((d, width)) => !flow.open && account_dialog(*flow, *names, d) && width == dialog_width(*flow),
            None => flow.open,
        },
{
    if flow.open {
        return None;
    }
    let mut t = Text::new();
    let mut chips: Vec<(&'static str, Key)> = Vec::new();
    match &flow.outcome {
        Some(outcome) => {
            match outcome {
                Ok(name) => {
                    let mut l = Line::new();
                    l.put(" ✓ Saved ", Ink::Low);
                    l.put(name.as_str(), Ink::Value);
                    l.put(". Its limits appear in the panel below.", Ink::Dim);
                    t.push(l);
                    t.push(line_of(" Start an agent on it with p in the launcher, or from a shell:", Ink::Dim));
                    let mut s = cat("   cctop as ", name.as_str());
                    s.append(" ");
                    s.append(names.command.as_str());
                    t.push(line_of(s.as_str(), Ink::Value));
                },
                Err(why) => {
                    t.push(line_of(cat(" ", why.as_str()).as_str(), Ink::Mid));
                },
            }
            chips.push(("[Enter]", Key::of(KeyCode::Enter)));
            let title = between("Add a ", names.title.as_str(), " account");
            return Some((dialog(title.as_str(), t, " [Enter] done", chips), 72));
        },
        None => {},
    }
    if flow.named {
        let mut l = line_of(" [f] full login  ", Ink::Value);
        let mut s = between("its own ~/.", names.command.as_str(), "-");
        s.append(flow.name.as_str());
        s.append(", everything works");
        l.put(s.as_str(), Ink::Dim);
        t.push(l);
        let mut l = line_of(" [t] token       ", Ink::Value);
        l.put(between("shares ~/.", names.command.as_str(), " history, but no Remote").as_str(), Ink::Dim);
        t.push(l);
        let last = between("                  Control or ", names.command.as_str(), ".ai connectors");
        t.push(line_of(last.as_str(), Ink::Dim));
        assert(t@ =~= kind_lines(flow.name@, *names));
        chips.push(("[f]", Key::of(KeyCode::Char('f'))));
        chips.push(("[t]", Key::of(KeyCode::Char('t'))));
        chips.push(("[Esc]", Key::of(KeyCode::Esc)));
        let mut title = between("Add ", names.title.as_str(), " account ");
        title.append(flow.name.as_str());
        return Some((dialog(title.as_str(), t, " [f] full login   [t] token   [Esc] cancel", chips), 64));
    }
    t.push(line_of(" What is it called?", Ink::Dim));
    t.push(field_line(flow.name.as_str()));
    assert(t@ =~= name_lines(flow.name@));
    chips.push(("[Enter]", Key::of(KeyCode::Enter)));
    chips.push(("[Esc]", Key::of(KeyCode::Esc)));
    let title = between("Add a ", names.title.as_str(), " account");
    Some((dialog(title.as_str(), t, " [Enter] next   [Esc] cancel", chips), 52))
}

/// What stands round the terminal of an account's own program.
pub struct AccountFrame {
    pub title: String,
    /// What stands on the lower border.
    pub hint: &'static str,
    pub note: Text,
}

/// What is said over the terminal.
pub open spec fn approve_lines(flow: AddAccount) -> Seq<LineView> {
    let login = flow.kind == Some(AccountKind::Login);
    seq![
        blank().with(
            " Approve it in the browser signed in as "@ + flow.name@ + ". "@ + (if login {
                "The account is ready"@
            } else {
                "The token is saved"@
            }),
            Ink::Dim,
        ),
        blank().with(
            if login {
                " the moment the login finishes."@
            } else {
                " the moment it is printed — nothing to copy."@
            },
            Ink::Dim,
        ),
    ]
}

/// What stands on the lower border.
pub open spec fn border_keys(flow: AddAccount) -> Seq<char> {
    if flow.link is Some {
        " [Ctrl+O] or click the link: copy it   [Esc] cancel "@
    } else {
        " [Esc] cancel "@
    }
}

/// What stands round the terminal of an account's own program.
pub fn account_frame(flow: &AddAccount, names: &Names) -> (r: AccountFrame)
    ensures
        r.title@ == " Add "@ + names.title@ + " account "@ + flow.name@ + " — "@ + program(flow.kind, names.command@) + " "@,
        r.hint@ == border_keys(*flow),
        r.note@ == approve_lines(*flow),
{
    let login = match flow.kind {
        Some(k) => k == AccountKind::Login,
        None => false,
    };
    let mut title = between(" Add ", names.title.as_str(), " account ");
    title.append(flow.name.as_str());
    title.append(" — ");
    title.append(program_of(flow.kind, names.command.as_str()).as_str());
    title.append(" ");
    let hint = if flow.link.is_some() {
        " [Ctrl+O] or click the link: copy it   [Esc] cancel "
    } else {
        " [Esc] cancel "
    };
    let mut note = Text::new();
    let mut s = cat(" Approve it in the browser signed in as ", flow.name.as_str());
    s.append(". ");
    s.append(
        if login {
            "The account is ready"
        } else {
            "The token is saved"
        },
    );
    note.push(line_of(s.as_str(), Ink::Dim));
    note.push(
        line_of(
            if login {
                " the moment the login finishes."
            } else {
                " the moment it is printed — nothing to copy."
            },
            Ink::Dim,
        ),
    );
    assert(note@ =~= approve_lines(*flow));
    AccountFrame { title, hint, note }
}

/// The key that copies the link.
pub open spec fn copy_key() -> Key {
    Key { code: KeyCode::Char('o'), ctrl: true, alt: false, shift: false }
}

/// The chips of the lower border, each a key.
pub open spec fn border_chips(chips: Seq<(&'static str, Key)>) -> bool {
    &&& chips.len() == 2
    &&& chips[0].0@ == "[Ctrl+O] or click the link: copy it"@ && chips[0].1 == copy_key()
    &&& chips[1].0@ == "[Esc] cancel"@ && chips[1].1 == Key::plain(KeyCode::Esc)
}

/// Where the chips on the lower border of `outer` can be clicked.
pub fn border_hits(flow: &AddAccount, outer: Rect) -> (r: Vec<(u16, u16, u16, Key)>)
    requires
        outer.height > 0,
    ensures
        exists|chips: Seq<(&'static str, Key)>| #[trigger]
            border_chips(chips) && r@ == chip_hits(
                Rect { x: column(outer.x + 1), ..outer },
                (outer.height - 1) as u16,
                border_keys(*flow),
                chips,
                2,
            ),
{
    let hint = if flow.link.is_some() {
        " [Ctrl+O] or click the link: copy it   [Esc] cancel "
    } else {
        " [Esc] cancel "
    };
    let mut chips: Vec<(&'static str, Key)> = Vec::new();
    chips.push(
        (
            "[Ctrl+O] or click the link: copy it",
            Key { code: KeyCode::Char('o'), ctrl: true, alt: false, shift: false },
        ),
    );
    chips.push(("[Esc] cancel", Key::of(KeyCode::Esc)));
    let inside = Rect { x: outer.x.saturating_add(1), y: outer.y, width: outer.width, height: outer.height };
    let r = confirm_chips(inside, outer.height - 1, hint, &chips);
    assert(border_chips(chips@));
    r
}

/// The end of the run of columns from `at` on that are not blank.
pub open spec fn run_end(row: Seq<char>, at: int) -> int
    decreases row.len() - at,
{
    if at < 0 || at >= row.len() || row[at] == ' ' {
        at
    } else {
        run_end(row, at + 1)
    }
}

/// Whether a link begins at a column.
pub open spec fn begins_at(row: Seq<char>, at: int) -> bool {
    0 <= at <= row.len() && begins(row.skip(at), "https://"@)
}

/// The first column from `at` on where a link begins.
pub open spec fn link_start(row: Seq<char>, at: int) -> Option<int>
    decreases row.len() - at,
{
    if at < 0 || at >= row.len() {
        None
    } else if begins_at(row, at) {
        Some(at)
    } else {
        link_start(row, at + 1)
    }
}

/// The first row from `r` on that a link begins on, and where on it.
pub open spec fn first_link(rows: Seq<Seq<char>>, r: int) -> Option<(int, int)>
    decreases rows.len() - r,
{
    if r < 0 || r >= rows.len() {
        None
    } else {
        match link_start(rows[r], 0) {
            Some(at) => Some((r, at)),
            None => first_link(rows, r + 1),
        }
    }
}

/// The first column from `at` on that is not blank.
pub open spec fn first_ink(row: Seq<char>, at: int) -> int
    decreases row.len() - at,
{
    if at < 0 || at >= row.len() || row[at] != ' ' {
        at
    } else {
        first_ink(row, at + 1)
    }
}

/// Whether a text is somewhere in another.
pub open spec fn occurs(text: Seq<char>, piece: Seq<char>) -> bool {
    exists|i: int| 0 <= i && i + piece.len() <= text.len() && #[trigger] text.subrange(i, i + piece.len()) == piece
}

/// The columns of a row that carry a piece of the link: its one run, where nothing
/// stands behind it and the link has it.
pub open spec fn piece_of(row: Seq<char>, link: Seq<char>) -> Option<(int, int)> {
    let from = first_ink(row, 0);
    let to = run_end(row, from);
    if from >= row.len() {
        None
    } else if first_ink(row, to) < row.len() || !occurs(link, row.subrange(from, to)) {
        None
    } else {
        Some((from, to))
    }
}

/// The rows from `r` on that carry a piece of the link, up to the first that does
/// not.
pub open spec fn pieces(rows: Seq<Seq<char>>, link: Seq<char>, r: int) -> Seq<(int, int, int)>
    decreases rows.len() - r,
{
    if r < 0 || r >= rows.len() {
        Seq::empty()
    } else {
        match piece_of(rows[r], link) {
            Some((from, to)) => seq![(r, from, to)] + pieces(rows, link, r + 1),
            None => Seq::empty(),
        }
    }
}

/// Where a link is drawn: the row it begins on and each row after that carries a
/// piece of it, with the columns of the piece.
pub open spec fn link_places(rows: Seq<Seq<char>>, link: Seq<char>) -> Seq<(int, int, int)> {
    match first_link(rows, 0) {
        Some((r, at)) => seq![(r, at, run_end(rows[r], at))] + pieces(rows, link, r + 1),
        None => Seq::empty(),
    }
}

/// What rows say.
pub open spec fn rows_say(rows: Seq<Vec<char>>) -> Seq<Seq<char>> {
    rows.map_values(|r: Vec<char>| r@)
}

/// Places as numbers.
pub open spec fn places_say(v: Seq<(usize, usize, usize)>) -> Seq<(int, int, int)> {
    v.map_values(|p: (usize, usize, usize)| (p.0 as int, p.1 as int, p.2 as int))
}

fn end_of_run(row: &Vec<char>, at: usize) -> (r: usize)
    requires
        at <= row@.len(),
    ensures
        r == run_end(row@, at as int),
        at <= r <= row@.len(),
{
    let mut i: usize = at;
    while i < row.len() && row[i] != ' '
        invariant
            at <= i <= row@.len(),
            run_end(row@, at as int) == run_end(row@, i as int),
        decreases row@.len() - i,
    {
        i += 1;
    }
    i
}

fn ink_from(row: &Vec<char>, at: usize) -> (r: usize)
    requires
        at <= row@.len(),
    ensures
        r == first_ink(row@, at as int),
        at <= r <= row@.len(),
{
    let mut i: usize = at;
    while i < row.len() && row[i] == ' '
        invariant
            at <= i <= row@.len(),
            first_ink(row@, at as int) == first_ink(row@, i as int),
        decreases row@.len() - i,
    {
        i += 1;
    }
    i
}

fn same_from(row: &Vec<char>, at: usize, p: &Vec<char>, from: usize, to: usize) -> (r: bool)
    requires
        at <= row@.len(),
        from <= to <= p@.len(),
    ensures
        r == (at + (to - from) <= row@.len() && row@.subrange(at as int, at + (to - from)) == p@.subrange(
            from as int,
            to as int,
        )),
{
    let (n, m): (usize, usize) = (row.len(), to - from);
    if n - at < m {
        return false;
    }
    let ghost a = row@.subrange(at as int, at + m);
    let ghost b = p@.subrange(from as int, to as int);
    let mut k: usize = 0;
    while k < m
        invariant
            k <= m,
            m == to - from,
            n == row@.len(),
            at + m <= n,
            to <= p@.len(),
            a == row@.subrange(at as int, at + m),
            b == p@.subrange(from as int, to as int),
            forall|j: int| 0 <= j < k ==> #[trigger] a[j] == b[j],
        decreases m - k,
    {
        if row[at + k] != p[from + k] {
            assert(a[k as int] != b[k as int]);
            return false;
        }
        k += 1;
    }
    assert(a =~= b);
    true
}

fn start_of_link(row: &Vec<char>, mark: &Vec<char>) -> (r: Option<usize>)
    requires
        mark@ == "https://"@,
    ensures
        match r {
            Some(at) => link_start(row@, 0) == Some(at as int) && at < row@.len(),
            None => link_start(row@, 0) is None,
        },
{
    let n: usize = row.len();
    let m: usize = mark.len();
    let mut i: usize = 0;
    while i < n
        invariant
            i <= n,
            n == row@.len(),
            m == mark@.len(),
            mark@ == "https://"@,
            link_start(row@, 0) == link_start(row@, i as int),
        decreases n - i,
    {
        let here = same_from(row, i, mark, 0, m);
        assert(here == begins_at(row@, i as int)) by {
            assert(mark@.subrange(0, m as int) =~= mark@);
            if i + m <= n {
                assert(row@.skip(i as int).take(m as int) =~= row@.subrange(i as int, i + m));
            }
        }
        if here {
            return Some(i);
        }
        i += 1;
    }
    None
}

fn link_has(link: &Vec<char>, row: &Vec<char>, from: usize, to: usize) -> (r: bool)
    requires
        from <= to <= row@.len(),
    ensures
        r == occurs(link@, row@.subrange(from as int, to as int)),
{
    let n: usize = link.len();
    let m: usize = to - from;
    let ghost piece = row@.subrange(from as int, to as int);
    let mut i: usize = 0;
    while i <= n
        invariant
            i <= n + 1,
            n == link@.len(),
            m == to - from,
            from <= to <= row@.len(),
            piece == row@.subrange(from as int, to as int),
            forall|k: int|
                0 <= k < i && k + piece.len() <= n ==> #[trigger] link@.subrange(k, k + piece.len()) != piece,
        decreases n + 1 - i,
    {
        if same_from(link, i, row, from, to) {
            assert(link@.subrange(i as int, i + piece.len()) == piece);
            return true;
        }
        if i == n {
            return false;
        }
        i += 1;
    }
    false
}

/// Where a link is drawn on a screen of one character a column: `(row, first
/// column, the one behind the last)` for the row it begins on and each after that
/// carries a piece of it. Columns and not only rows, because the rows are shared:
/// what stands before the link does not open it.
pub fn link_cells(rows: &Vec<Vec<char>>, link: &str) -> (r: Vec<(usize, usize, usize)>)
    ensures
        places_say(r@) == link_places(rows_say(rows@), link@),
{
    let ghost rv = rows_say(rows@);
    let lv = chars_of(link);
    let mark = chars_of("https://");
    let n: usize = rows.len();
    let mut out: Vec<(usize, usize, usize)> = Vec::new();
    assert(places_say(out@) =~= Seq::empty());
    let mut row: usize = 0;
    while row < n
        invariant
            row <= n,
            n == rows@.len(),
            rv == rows_say(rows@),
            mark@ == "https://"@,
            lv@ == link@,
            out@.len() == 0,
            places_say(out@) == Seq::<(int, int, int)>::empty(),
            first_link(rv, 0) == first_link(rv, row as int),
        decreases n - row,
    {
        assert(rv[row as int] == rows@[row as int]@);
        match start_of_link(&rows[row], &mark) {
            Some(at) => {
                let end: usize = end_of_run(&rows[row], at);
                out.push((row, at, end));
                let ghost head = seq![(row as int, at as int, end as int)];
                assert(places_say(out@) =~= head);
                let mut k: usize = row + 1;
                assert(head + pieces(rv, link@, k as int) == link_places(rv, link@));
                while k < n
                    invariant
                        row < k <= n,
                        n == rows@.len(),
                        rv == rows_say(rows@),
                        lv@ == link@,
                        places_say(out@) + pieces(rv, link@, k as int) == link_places(rv, link@),
                    decreases n - k,
                {
                    let cells = &rows[k];
                    assert(rv[k as int] == cells@);
                    let from: usize = ink_from(cells, 0);
                    let to: usize = end_of_run(cells, from);
                    if from >= cells.len() || ink_from(cells, to) < cells.len() || !link_has(&lv, cells, from, to) {
                        assert(pieces(rv, link@, k as int) =~= Seq::empty());
                        assert(places_say(out@) =~= link_places(rv, link@));
                        return out;
                    }
                    let ghost was = out@;
                    out.push((k, from, to));
                    assert(places_say(out@) =~= places_say(was).push((k as int, from as int, to as int)));
                    assert(places_say(out@) + pieces(rv, link@, k + 1) =~= places_say(was) + pieces(rv, link@, k as int));
                    k += 1;
                }
                assert(pieces(rv, link@, k as int) =~= Seq::empty());
                assert(places_say(out@) =~= link_places(rv, link@));
                return out;
            },
            None => {},
        }
        row += 1;
    }
    out
}

/// Nothing that is drawn beside a link is part of its target: each piece is a run
/// without blanks, and every piece but the first is in the link.
pub proof fn a_target_holds_only_the_link(rows: Seq<Seq<char>>, link: Seq<char>, r: int, k: int)
    requires
        0 <= r <= rows.len(),
        0 <= k < pieces(rows, link, r).len(),
    ensures
        ({
            let p = pieces(rows, link, r)[k];
            &&& r <= p.0 < rows.len()
            &&& occurs(link, rows[p.0].subrange(p.1, p.2))
            &&& forall|c: int| p.1 <= c < p.2 ==> #[trigger] rows[p.0][c] != ' '
        }),
    decreases rows.len() - r,
{
    if r < rows.len() && piece_of(rows[r], link) is Some {
        let (from, to) = piece_of(rows[r], link)->0;
        let rest = pieces(rows, link, r + 1);
        if k == 0 {
            run_is_ink(rows[r], from);
        } else {
            assert(pieces(rows, link, r)[k] == rest[k - 1]);
            a_target_holds_only_the_link(rows, link, r + 1, k - 1);
        }
    }
}

proof fn run_is_ink(row: Seq<char>, at: int)
    ensures
        forall|c: int| at <= c < run_end(row, at) ==> #[trigger] row[c] != ' ',
    decreases row.len() - at,
{
    if 0 <= at < row.len() && row[at] != ' ' {
        run_is_ink(row, at + 1);
    }
}

/// Where the pieces of a link can be clicked on a terminal drawn at `screen`: on
/// every row of it a click copies the link.
pub open spec fn link_hits(places: Seq<(int, int, int)>, screen: Rect, n: int) -> Seq<(u16, u16, u16, Key)>
    decreases n,
{
    if n <= 0 {
        Seq::empty()
    } else {
        let before = link_hits(places, screen, n - 1);
        if places[n - 1].0 < screen.height {
            before.push(
                (
                    column(screen.y + places[n - 1].0),
                    screen.x,
                    column(screen.x + screen.width),
                    copy_key(),
                ),
            )
        } else {
            before
        }
    }
}

/// Where the pieces of a link can be clicked on a terminal drawn at `screen`.
pub fn link_rows(places: &Vec<(usize, usize, usize)>, screen: Rect) -> (r: Vec<(u16, u16, u16, Key)>)
    ensures
        r@ == link_hits(places_say(places@), screen, places@.len() as int),
{
    let ghost pv = places_say(places@);
    let mut hits: Vec<(u16, u16, u16, Key)> = Vec::new();
    let mut i: usize = 0;
    while i < places.len()
        invariant
            i <= places@.len(),
            pv == places_say(places@),
            hits@ == link_hits(pv, screen, i as int),
        decreases places@.len() - i,
    {
        assert(pv[i as int].0 == places@[i as int].0);
        if places[i].0 < screen.height as usize {
            hits.push(
                (
                    screen.y.saturating_add(places[i].0 as u16),
                    screen.x,
                    screen.right(),
                    Key { code: KeyCode::Char('o'), ctrl: true, alt: false, shift: false },
                ),
            );
        }
        i += 1;
    }
    hits
}

proof fn a_run_ends_at_a_blank(row: Seq<char>, at: int, to: int)
    requires
        0 <= at <= to <= row.len(),
        forall|i: int| at <= i < to ==> #[trigger] row[i] != ' ',
        to < row.len() ==> row[to] == ' ',
    ensures
        run_end(row, at) == to,
    decreases to - at,
{
    if at < to {
        a_run_ends_at_a_blank(row, at + 1, to);
    }
}

/// A link is found where it begins first, and runs to the next blank.
pub proof fn a_link_is_found_whole(row: Seq<char>, at: int, to: int)
    requires
        0 <= at <= to <= row.len(),
        begins_at(row, at),
        at < row.len(),
        forall|i: int| 0 <= i < at ==> !#[trigger] begins_at(row, i),
        forall|i: int| at <= i < to ==> #[trigger] row[i] != ' ',
        to < row.len() ==> row[to] == ' ',
    ensures
        link_start(row, 0) == Some(at),
        run_end(row, at) == to,
{
    the_start_is_found(row, 0, at);
    a_run_ends_at_a_blank(row, at, to);
}

proof fn the_start_is_found(row: Seq<char>, i: int, at: int)
    requires
        0 <= i <= at < row.len(),
        begins_at(row, at),
        forall|i: int| 0 <= i < at ==> !#[trigger] begins_at(row, i),
    ensures
        link_start(row, i) == Some(at),
    decreases at - i,
{
    if i < at {
        assert(!begins_at(row, i));
        the_start_is_found(row, i + 1, at);
    }
}

/// What came of adding an account names it, and how an agent is started under it; what
/// went wrong is said as it was.
pub proof fn an_added_account_is_named(name: String, why: String, names: Names)
    ensures
        outcome_lines(Ok(name), names)[0].spans[1].text == name@,
        outcome_lines(Ok(name), names)[2].spans[0].text == "   cctop as "@ + name@ + " "@ + names.command@,
        outcome_lines(Err(why), names).len() == 1,
        outcome_lines(Err(why), names)[0].spans[0].text == " "@ + why@,
{
}

/// The link can be copied once there is one, and what is said over the terminal names
/// the account and what it waits for.
pub proof fn a_link_can_be_copied_once_there_is_one(flow: AddAccount)
    ensures
        flow.link is Some ==> border_keys(flow) == " [Ctrl+O] or click the link: copy it   [Esc] cancel "@,
        flow.link is None ==> border_keys(flow) == " [Esc] cancel "@,
        flow.kind == Some(AccountKind::Login) ==> approve_lines(flow)[0].spans[0].text
            == " Approve it in the browser signed in as "@ + flow.name@ + ". "@ + "The account is ready"@,
        flow.kind == Some(AccountKind::Token) ==> approve_lines(flow)[0].spans[0].text
            == " Approve it in the browser signed in as "@ + flow.name@ + ". "@ + "The token is saved"@,
{
}

/// Every row of a link that is in sight is clicked to copy it, and nothing else is.
pub proof fn every_piece_of_a_link_can_be_clicked(places: Seq<(int, int, int)>, screen: Rect, n: int, k: int)
    requires
        0 <= k < n <= places.len(),
        0 <= places[k].0 < screen.height,
    ensures
        link_hits(places, screen, n).contains(
            (
                column(screen.y + places[k].0),
                screen.x,
                column(screen.x + screen.width),
                Key { code: KeyCode::Char('o'), ctrl: true, alt: false, shift: false },
            ),
        ),
    decreases n,
{
    let one = (column(screen.y + places[k].0), screen.x, column(screen.x + screen.width), copy_key());
    let all = link_hits(places, screen, n);
    if k < n - 1 {
        every_piece_of_a_link_can_be_clicked(places, screen, n - 1, k);
        let before = link_hits(places, screen, n - 1);
        let i = choose|i: int| 0 <= i < before.len() && before[i] == one;
        assert(all[i] == one);
    } else {
        assert(all[all.len() - 1] == one);
    }
}

} // verus!
