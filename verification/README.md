# cctop

The state and the rules behind a terminal dashboard of coding agents, verified with
[Verus](https://github.com/verus-lang/verus).

- `src/` is the library. What a key, a mouse press, an answer or a reading of the
  machine changes, and what every panel, modal and border says, are functions from
  plain values to plain values, each with a contract. The laws that hold across them
  are public proof functions beside the functions they are about. What is believed
  of other people's crates stands in `src/outside.rs` and nowhere else.
- `tests/` runs the library, with those crates linked.
- `app/` is the terminal around it: painting, the clipboard, the music, and the loop
  that hands events in and performs what the library asks for.

Amounts of money are in billionths of a dollar, processor shares in tenths of a
percent, times in milliseconds. Nothing in the library is a
floating-point number; a quotient that is shown is rounded as double precision
rounds it, by integers.
