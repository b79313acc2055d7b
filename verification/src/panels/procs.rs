//! The Processes panel: an agent's process tree.

use vstd::prelude::*;

use crate::figures::{bytes_text, compact_bytes, short_path, tildify};
use crate::model::{Proc, Provider, Session, Surface};
use crate::order::{keys_of, lists_each, order_by, sorted};
use crate::remote::{path_tail, tail_of};
use crate::styled::{blank, line_of, note, nothing, Ink, Line, LineView, Text};
use crate::text::{
    cat, chars_of, count, cut, dec, decimal, left_in, pad_left, right_in, string_between, trim_start, trimmed_start, truncate,
};

verus! {

/// Where the first blank of `s` stands, `s.len()` where there is none.
pub open spec fn first_blank(s: Seq<char>) -> int
    decreases s.len(),
{
    if s.len() == 0 || s[0] == ' ' {
        0
    } else {
        1 + first_blank(s.skip(1))
    }
}

/// A command line with its program's directory left out.
pub open spec fn command_shown(args: Seq<char>) -> Seq<char> {
    let at = first_blank(args);
    let name = tail_of(args.take(at), 1);
    let rest = trimmed_start(args.skip(at));
    if rest.len() == 0 {
        name
    } else {
        name + " "@ + rest
    }
}

fn command_of(args: &str) -> (r: String)
    ensures
        r@ == command_shown(args@),
{
    let v = chars_of(args);
    let mut i: usize = 0;
    assert(v@.skip(0) =~= v@);
    while i < v.len() && v[i] != ' '
        invariant
            i <= v@.len(),
            first_blank(v@) == i + first_blank(v@.skip(i as int)),
        decreases v@.len() - i,
    {
        assert(v@.skip(i as int).skip(1) =~= v@.skip(i + 1));
        i += 1;
    }
    let program = string_between(&v, 0, i);
    assert(program@ =~= args@.take(i as int));
    let tail = string_between(&v, i, v.len());
    assert(tail@ =~= args@.skip(i as int));
    let name = path_tail(program.as_str(), 1);
    let rest = trim_start(tail.as_str());
    if count(rest.as_str()) == 0 {
        name
    } else {
        let mut s = cat(name.as_str(), " ");
        s.append(rest.as_str());
        s
    }
}

/// How many cells are left for a command.
pub open spec fn command_width(width: int) -> int {
    if width - 27 < 10 {
        10
    } else {
        width - 27
    }
}

/// A load in tenths of a percent, in five cells.
pub open spec fn load_text(cpu: nat) -> Seq<char> {
    right_in(dec(cpu / 10) + "."@ + dec(cpu % 10), 5) + "%"@
}

/// A process's line. One that exited a moment ago is greyed rather than gone, so
/// that a burst of short-lived ones does not make the list flicker.
pub open spec fn process_line(p: Proc, width: int) -> LineView {
    let base = if p.gone {
        Ink::Dim
    } else if p.is_root {
        Ink::Value
    } else {
        Ink::Gray(250)
    };
    blank().with(right_in(dec(p.pid as nat), 7), base).with("  "@, Ink::Plain).with(
        load_text(p.cpu as nat),
        if p.gone {
            base
        } else {
            Ink::Cpu(p.cpu)
        },
    ).with("  "@, Ink::Plain).with(right_in(bytes_text(p.memory as nat), 8), base).with("  "@, Ink::Plain).with(
        cut(command_shown(p.args@), command_width(width)),
        base,
    )
}

fn process_line_of(p: &Proc, width: usize) -> (r: Line)
    ensures
        r@ == process_line(*p, width as int),
{
    let base = if p.gone {
        Ink::Dim
    } else if p.is_root {
        Ink::Value
    } else {
        Ink::Gray(250)
    };
    let w: usize = if width < 37 {
        10
    } else {
        width - 27
    };
    let mut l = Line::new();
    l.put(pad_left(decimal(p.pid as u128).as_str(), 7).as_str(), base);
    l.put("  ", Ink::Plain);
    let mut load = cat(decimal((p.cpu / 10) as u128).as_str(), ".");
    load.append(decimal((p.cpu % 10) as u128).as_str());
    l.put(cat(pad_left(load.as_str(), 5).as_str(), "%").as_str(), if p.gone { base } else { Ink::Cpu(p.cpu) });
    l.put("  ", Ink::Plain);
    l.put(pad_left(compact_bytes(p.memory).as_str(), 8).as_str(), base);
    l.put("  ", Ink::Plain);
    l.put(truncate(command_of(p.args.as_str()).as_str(), w).as_str(), base);
    l
}

/// What the processes are ordered by.
pub open spec fn load_keys(list: Seq<Proc>) -> Seq<Seq<u64>> {
    list.map_values(|p: Proc| seq![p.cpu])
}

/// The lines of the first `n` processes that `order` lists.
pub open spec fn process_lines(list: Seq<Proc>, order: Seq<usize>, width: int, n: int) -> Seq<LineView>
    decreases n,
{
    if n <= 0 {
        nothing()
    } else {
        process_lines(list, order, width, n - 1).push(process_line(list[order[n - 1] as int], width))
    }
}

/// The lines above the processes.
pub open spec fn process_head(command: Seq<char>, width: int, home: Seq<char>) -> Seq<LineView> {
    let t = if command.len() > 0 {
        nothing().push(
            blank().with("Root"@, Ink::Label).with(" "@, Ink::Plain).with(
                cut(
                    short_path(command, home),
                    if width < 6 {
                        0
                    } else {
                        width - 6
                    },
                ),
                Ink::Dim,
            ),
        )
    } else {
        nothing()
    };
    t.push(
        blank().with(
            right_in("PID"@, 7) + "  "@ + right_in("CPU%"@, 6) + "  "@ + right_in("MEM"@, 8) + "  "@ + "COMMAND"@,
            Ink::Header,
        ),
    )
}

/// Why there is no tree to show, where there is none.
pub open spec fn no_processes(s: Session) -> Option<Seq<char>> {
    if s.surface == Surface::DesktopCowork {
        Some("Cowork sessions run in a cloud VM — no local process tree."@)
    } else if s.surface == Surface::Editor && s.provider == Provider::Cursor {
        Some("Cursor uses a shared editor process — no per-session process tree."@)
    } else {
        match s.process {
            None => Some("Process data is only available for running sessions."@),
            Some(p) => if p.list@.len() == 0 {
                Some("No process data available."@)
            } else {
                None
            },
        }
    }
}

/// The Processes panel: the busiest process first, and those that are equally
/// busy in the order they were found in.
pub fn processes(session: &Session, width: usize, home: &str) -> (r: Text)
    ensures
        match no_processes(*session) {
            Some(why) => r@ == nothing().push(blank().with(why, Ink::Dim)),
            None => {
                let p = session.process->0;
                r@ == process_head(p.command@, width as int, home@) + process_lines(
                    p.list@,
                    sorted(load_keys(p.list@), false),
                    width as int,
                    p.list@.len() as int,
                )
            },
        },
{
    if session.surface == Surface::DesktopCowork {
        return note("Cowork sessions run in a cloud VM — no local process tree.", Ink::Dim);
    }
    if session.surface == Surface::Editor && session.provider == Provider::Cursor {
        return note("Cursor uses a shared editor process — no per-session process tree.", Ink::Dim);
    }
    let p = match &session.process {
        None => {
            return note("Process data is only available for running sessions.", Ink::Dim);
        },
        Some(p) => p,
    };
    if p.list.len() == 0 {
        return note("No process data available.", Ink::Dim);
    }
    let order = by_load(&p.list);
    let mut t = Text::new();
    if count(p.command.as_str()) > 0 {
        let mut l = Line::new();
        l.put("Root", Ink::Label);
        l.put(" ", Ink::Plain);
        let path = tildify(p.command.as_str(), home);
        l.put(truncate(path.as_str(), width.saturating_sub(6)).as_str(), Ink::Dim);
        t.push(l);
    }
    let mut head = cat(pad_left("PID", 7).as_str(), "  ");
    head.append(pad_left("CPU%", 6).as_str());
    head.append("  ");
    head.append(pad_left("MEM", 8).as_str());
    head.append("  ");
    head.append("COMMAND");
    t.push(line_of(head.as_str(), Ink::Header));
    let ghost top = t@;
    assert(top == process_head(p.command@, width as int, home@));
    let mut i: usize = 0;
    assert(top + process_lines(p.list@, order@, width as int, 0) =~= top);
    while i < order.len()
        invariant
            i <= order@.len(),
            lists_each(order@, p.list@.len() as int),
            t@ == top + process_lines(p.list@, order@, width as int, i as int),
        decreases order@.len() - i,
    {
        t.push(process_line_of(&p.list[order[i]], width));
        assert(t@ =~= top + process_lines(p.list@, order@, width as int, i + 1));
        i += 1;
    }
    t
}

fn by_load(list: &Vec<Proc>) -> (r: Vec<usize>)
    ensures
        lists_each(r@, list@.len() as int),
        r@ == sorted(load_keys(list@), false),
{
    let mut keys: Vec<Vec<u64>> = Vec::new();
    let mut i: usize = 0;
    while i < list.len()
        invariant
            i <= list@.len(),
            keys@.len() == i,
            forall|j: int| 0 <= j < i ==> (#[trigger] keys@[j])@ == seq![list@[j].cpu],
        decreases list@.len() - i,
    {
        let mut key: Vec<u64> = Vec::new();
        key.push(list[i].cpu);
        assert(key@ =~= seq![list@[i as int].cpu]);
        keys.push(key);
        i += 1;
    }
    assert(keys_of(keys@) =~= load_keys(list@));
    order_by(&keys, false)
}

proof fn the_blank_is_found(program: Seq<char>, rest: Seq<char>)
    requires
        forall|i: int| 0 <= i < program.len() ==> #[trigger] program[i] != ' ',
    ensures
        first_blank(program) == program.len(),
        first_blank(program + " "@ + rest) == program.len(),
    decreases program.len(),
{
    reveal_strlit(" ");
    let all = program + " "@ + rest;
    if program.len() > 0 {
        assert(all[0] == program[0]);
        assert(all.skip(1) =~= program.skip(1) + " "@ + rest);
        the_blank_is_found(program.skip(1), rest);
    } else {
        assert(all[0] == ' ');
    }
}

/// A command is shown by its program's name and with all it was given: only the
/// directory the program is in is left out.
pub proof fn a_command_keeps_its_arguments(program: Seq<char>, rest: Seq<char>)
    requires
        forall|i: int| 0 <= i < program.len() ==> #[trigger] program[i] != ' ',
    ensures
        command_shown(program) == tail_of(program, 1),
        trimmed_start(" "@ + rest).len() > 0 ==> command_shown(program + " "@ + rest) == tail_of(program, 1) + " "@
            + trimmed_start(" "@ + rest),
{
    the_blank_is_found(program, rest);
    let all = program + " "@ + rest;
    let n = program.len() as int;
    assert(program.take(n) =~= program);
    assert(program.skip(n) =~= Seq::<char>::empty());
    assert(trimmed_start(Seq::<char>::empty()).len() == 0);
    assert(all.take(n) =~= program);
    assert(all.skip(n) =~= " "@ + rest);
}

/// A process's line has its own number, load, memory and command, and is greyed where
/// the process is gone.
pub proof fn a_process_has_its_own_figures(p: Proc, width: int)
    ensures
        ({
            let spans = process_line(p, width).spans;
            let load = crate::text::reading(spans[2].text);
            &&& crate::text::reading(spans[0].text) == p.pid
            &&& load == p.cpu
            &&& spans[2].text[spans[2].text.len() - 3] == '.'
            &&& spans[4].text == right_in(bytes_text(p.memory as nat), 8)
            &&& spans[6].text == cut(command_shown(p.args@), if width < 37 {
                10
            } else {
                width - 27
            })
            &&& p.gone ==> spans[0].ink == Ink::Dim && spans[2].ink == Ink::Dim && spans[4].ink == Ink::Dim && spans[6].ink
                == Ink::Dim
            &&& !p.gone ==> spans[2].ink == Ink::Cpu(p.cpu)
            &&& !p.gone && p.is_root ==> spans[0].ink == Ink::Value && spans[6].ink == Ink::Value
        }),
{
    reveal_strlit(".");
    reveal_strlit("%");
    let pid = dec(p.pid as nat);
    let left = right_in(pid, 7);
    crate::text::a_number_reads_back(p.pid as nat);
    let pad = (left.len() - pid.len()) as int;
    assert(left =~= crate::text::times(' ', pad) + pid);
    crate::text::marks_before_are_not_read(crate::text::times(' ', pad), pid);
    let whole = dec((p.cpu / 10) as nat);
    let tenth = dec((p.cpu % 10) as nat);
    assert(tenth.len() == 1);
    crate::text::a_number_reads_back((p.cpu / 10) as nat);
    crate::text::a_number_reads_back((p.cpu % 10) as nat);
    crate::text::only_digits_are_read(whole, "."@);
    let load = whole + "."@ + tenth;
    assert(load.drop_last() =~= whole + "."@);
    assert(load.last() == tenth[0]);
    assert(tenth.last() == tenth[0]);
    assert(tenth.drop_last() =~= Seq::<char>::empty());
    assert(crate::text::reading(Seq::<char>::empty()) == 0);
    assert(crate::text::reading(load) == p.cpu);
    let shown = right_in(load, 5);
    let pad = (shown.len() - load.len()) as int;
    assert(shown =~= crate::text::times(' ', pad) + load);
    crate::text::marks_before_are_not_read(crate::text::times(' ', pad), load);
    crate::text::only_digits_are_read(shown, "%"@);
    assert(load_text(p.cpu as nat)[load_text(p.cpu as nat).len() - 3] == load[load.len() - 2]);
}

proof fn lines_in_order(list: Seq<Proc>, order: Seq<usize>, width: int, n: int, i: int)
    requires
        0 <= i < n <= order.len(),
    ensures
        process_lines(list, order, width, n).len() == n,
        process_lines(list, order, width, n)[i] == process_line(list[order[i] as int], width),
    decreases n,
{
    assert(process_lines(list, order, width, 0).len() == 0);
    if n > 1 {
        lines_in_order(list, order, width, n - 1, if i < n - 1 {
            i
        } else {
            0
        });
    }
}

/// Every process has one line, and one that is busier stands above one that is less
/// so.
pub proof fn the_busiest_is_first(list: Seq<Proc>, width: int, i: int, j: int)
    requires
        list.len() <= usize::MAX,
        0 <= i < j < list.len(),
    ensures
        ({
            let order = sorted(load_keys(list), false);
            let lines = process_lines(list, order, width, list.len() as int);
            &&& lists_each(order, list.len() as int)
            &&& lines.len() == list.len()
            &&& lines[i] == process_line(list[order[i] as int], width)
            &&& lines[j] == process_line(list[order[j] as int], width)
            &&& list[order[i] as int].cpu >= list[order[j] as int].cpu
        }),
{
    let keys = load_keys(list);
    let order = sorted(keys, false);
    crate::order::every_row_has_its_place(keys, false);
    lines_in_order(list, order, width, list.len() as int, i);
    lines_in_order(list, order, width, list.len() as int, j);
    let (x, y) = (order[i] as int, order[j] as int);
    assert(crate::order::goes_before(keys, false, x, y));
    assert(keys[x] == seq![list[x].cpu]);
    assert(keys[y] == seq![list[y].cpu]);
    assert(keys[x][0] == list[x].cpu && keys[y][0] == list[y].cpu);
    if list[x].cpu < list[y].cpu {
        assert(crate::order::lex_lt(keys[x], keys[y]));
    }
}

} // verus!
