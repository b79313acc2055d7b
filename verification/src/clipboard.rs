//! Putting text on the clipboard: the programs that can, and the sequence that asks
//! the terminal where none is.

use vstd::prelude::*;

use crate::text::cat;

verus! {

/// The programs that put what they read on the clipboard, in the order they are
/// tried.
pub const HELPERS: [&'static str; 5] = ["wl-copy", "xclip", "xsel", "pbcopy", "clip.exe"];

/// The arguments of the program at place `i`.
pub open spec fn arguments(i: int) -> Seq<Seq<char>> {
    if i == 1 {
        seq!["-selection"@, "clipboard"@]
    } else if i == 2 {
        seq!["--clipboard"@, "--input"@]
    } else {
        Seq::empty()
    }
}

/// What literal texts say.
pub open spec fn literals(v: Seq<&'static str>) -> Seq<Seq<char>> {
    v.map_values(|s: &'static str| s@)
}

/// The arguments of the program at place `i`.
pub fn helper_arguments(i: usize) -> (r: Vec<&'static str>)
    ensures
        literals(r@) == arguments(i as int),
{
    let mut v: Vec<&'static str> = Vec::new();
    if i == 1 {
        v.push("-selection");
        v.push("clipboard");
    } else if i == 2 {
        v.push("--clipboard");
        v.push("--input");
    }
    assert(literals(v@) =~= arguments(i as int));
    v
}

/// The character that stands for six bits.
pub open spec fn sextet(n: int) -> char {
    if n < 26 {
        (65 + n) as char
    } else if n < 52 {
        (71 + n) as char
    } else if n < 62 {
        (n - 4) as char
    } else if n == 62 {
        '+'
    } else {
        '/'
    }
}

/// The six bits a character stands for.
pub open spec fn bits_of(c: char) -> int {
    let n = c as int;
    if 65 <= n < 91 {
        n - 65
    } else if 97 <= n < 123 {
        n - 71
    } else if 48 <= n < 58 {
        n + 4
    } else if c == '+' {
        62
    } else {
        63
    }
}

/// Bytes in base 64: four characters for three bytes, and `=` for those that are
/// missing at the end.
pub open spec fn encoded(bytes: Seq<u8>) -> Seq<char>
    decreases bytes.len(),
{
    if bytes.len() == 0 {
        Seq::empty()
    } else if bytes.len() == 1 {
        let a = bytes[0] as int;
        seq![sextet(a / 4), sextet((a % 4) * 16), '=', '=']
    } else if bytes.len() == 2 {
        let (a, b) = (bytes[0] as int, bytes[1] as int);
        seq![sextet(a / 4), sextet((a % 4) * 16 + b / 16), sextet((b % 16) * 4), '=']
    } else {
        let (a, b, c) = (bytes[0] as int, bytes[1] as int, bytes[2] as int);
        seq![sextet(a / 4), sextet((a % 4) * 16 + b / 16), sextet((b % 16) * 4 + c / 64), sextet(c % 64)] + encoded(
            bytes.skip(3),
        )
    }
}

/// The bytes that characters of base 64 stand for.
pub open spec fn decoded(text: Seq<char>) -> Seq<u8>
    decreases text.len(),
{
    if text.len() < 4 {
        Seq::empty()
    } else {
        let (w, x) = (bits_of(text[0]), bits_of(text[1]));
        if text[2] == '=' {
            seq![(w * 4 + x / 16) as u8]
        } else if text[3] == '=' {
            let y = bits_of(text[2]);
            seq![(w * 4 + x / 16) as u8, ((x % 16) * 16 + y / 4) as u8]
        } else {
            let (y, z) = (bits_of(text[2]), bits_of(text[3]));
            seq![(w * 4 + x / 16) as u8, ((x % 16) * 16 + y / 4) as u8, ((y % 4) * 64 + z) as u8] + decoded(text.skip(4))
        }
    }
}

proof fn sextets_are_told_apart(n: int)
    requires
        0 <= n < 64,
    ensures
        bits_of(sextet(n)) == n,
        sextet(n) != '=',
{
}

/// What is put on the clipboard through the terminal is what was copied: the bytes
/// come back.
pub proof fn copied_bytes_come_back(bytes: Seq<u8>)
    ensures
        decoded(encoded(bytes)) == bytes,
    decreases bytes.len(),
{
    if bytes.len() == 0 {
        assert(decoded(encoded(bytes)) =~= bytes);
    } else if bytes.len() == 1 {
        let a = bytes[0] as int;
        sextets_are_told_apart(a / 4);
        sextets_are_told_apart((a % 4) * 16);
        assert((a / 4) * 4 + ((a % 4) * 16) / 16 == a);
        assert(decoded(encoded(bytes)) =~= bytes);
    } else if bytes.len() == 2 {
        let (a, b) = (bytes[0] as int, bytes[1] as int);
        let (x, y) = ((a % 4) * 16 + b / 16, (b % 16) * 4);
        sextets_are_told_apart(a / 4);
        sextets_are_told_apart(x);
        sextets_are_told_apart(y);
        assert((a / 4) * 4 + x / 16 == a);
        assert((x % 16) * 16 + y / 4 == b);
        assert(decoded(encoded(bytes)) =~= bytes);
    } else {
        let (a, b, c) = (bytes[0] as int, bytes[1] as int, bytes[2] as int);
        let (x, y, z) = ((a % 4) * 16 + b / 16, (b % 16) * 4 + c / 64, c % 64);
        sextets_are_told_apart(a / 4);
        sextets_are_told_apart(x);
        sextets_are_told_apart(y);
        sextets_are_told_apart(z);
        assert((a / 4) * 4 + x / 16 == a);
        assert((x % 16) * 16 + y / 4 == b);
        assert((y % 4) * 64 + z == c);
        let rest = bytes.skip(3);
        copied_bytes_come_back(rest);
        let text = encoded(bytes);
        assert(text.skip(4) =~= encoded(rest));
        assert(decoded(text) =~= bytes);
    }
}

fn letter(n: u8) -> (r: char)
    requires
        n < 64,
    ensures
        r == sextet(n as int),
{
    if n < 26 {
        (65 + n) as char
    } else if n < 52 {
        (71 + n) as char
    } else if n < 62 {
        (n - 4) as char
    } else if n == 62 {
        '+'
    } else {
        '/'
    }
}

fn put(s: &mut String, a: char, b: char, c: char, d: char)
    ensures
        final(s)@ == old(s)@ + seq![a, b, c, d],
{
    s.push(a);
    s.push(b);
    s.push(c);
    s.push(d);
    assert(s@ =~= old(s)@ + seq![a, b, c, d]);
}

/// Bytes in base 64.
pub fn b64_encode(bytes: &[u8]) -> (r: String)
    ensures
        r@ == encoded(bytes@),
{
    let n: usize = bytes.len();
    let mut s = String::new();
    let mut i: usize = 0;
    assert(bytes@.skip(0) =~= bytes@);
    assert(s@ + encoded(bytes@) =~= encoded(bytes@));
    while n - i >= 3
        invariant
            i <= n,
            n == bytes@.len(),
            s@ + encoded(bytes@.skip(i as int)) == encoded(bytes@),
        decreases n - i,
    {
        let ghost rest = bytes@.skip(i as int);
        let ghost was = s@;
        let (a, b, c): (u8, u8, u8) = (bytes[i], bytes[i + 1], bytes[i + 2]);
        assert(rest[0] == a && rest[1] == b && rest[2] == c);
        put(
            &mut s,
            letter(a / 4),
            letter((a % 4) * 16 + b / 16),
            letter((b % 16) * 4 + c / 64),
            letter(c % 64),
        );
        proof {
            assert(rest.skip(3) =~= bytes@.skip(i + 3));
            assert(s@ + encoded(bytes@.skip(i + 3)) =~= was + encoded(rest));
        }
        i += 3;
    }
    let ghost rest = bytes@.skip(i as int);
    if n - i == 1 {
        let a: u8 = bytes[i];
        assert(rest[0] == a);
        put(&mut s, letter(a / 4), letter((a % 4) * 16), '=', '=');
    } else if n - i == 2 {
        let (a, b): (u8, u8) = (bytes[i], bytes[i + 1]);
        assert(rest[0] == a && rest[1] == b);
        put(&mut s, letter(a / 4), letter((a % 4) * 16 + b / 16), letter((b % 16) * 4), '=');
    }
    assert(s@ =~= encoded(bytes@));
    s
}

/// The sequence that asks a terminal to put text on its clipboard. It works over a
/// connection and inside a multiplexer, where no program on this machine would
/// reach the clipboard that is meant.
pub fn clipboard_sequence(text: &str) -> (r: String)
    ensures
        r@ == "\u{1b}]52;c;"@ + encoded(vstd::utf8::encode_utf8(text@)) + "\u{7}"@,
{
    let mut s = cat("\u{1b}]52;c;", b64_encode(text.as_bytes()).as_str());
    s.append("\u{7}");
    s
}

/// The characters are those of base 64 in its own order: capitals, small letters,
/// digits, and the two signs.
pub proof fn the_alphabet_is_in_order(n: int)
    requires
        0 <= n < 64,
    ensures
        n < 26 ==> sextet(n) as int == 'A' as int + n,
        26 <= n < 52 ==> sextet(n) as int == 'a' as int + (n - 26),
        52 <= n < 62 ==> sextet(n) as int == '0' as int + (n - 52),
        n == 62 ==> sextet(n) == '+',
        n == 63 ==> sextet(n) == '/',
{
}

/// Three bytes are four characters, and what is missing of three at the end is marked.
pub proof fn what_is_encoded_is_whole_fours(bytes: Seq<u8>)
    ensures
        encoded(bytes).len() == (bytes.len() + 2) / 3 * 4,
        bytes.len() % 3 == 1 ==> encoded(bytes).last() == '=' && encoded(bytes)[encoded(bytes).len() - 2] == '=',
        bytes.len() % 3 == 2 ==> encoded(bytes).last() == '=' && encoded(bytes)[encoded(bytes).len() - 2] != '=',
        bytes.len() % 3 == 0 && bytes.len() > 0 ==> encoded(bytes).last() != '=',
    decreases bytes.len(),
{
    if bytes.len() >= 3 {
        what_is_encoded_is_whole_fours(bytes.skip(3));
        let rest = encoded(bytes.skip(3));
        let all = encoded(bytes);
        if bytes.len() > 3 {
            assert(all.last() == rest.last());
            assert(all[all.len() - 2] == rest[rest.len() - 2]);
        } else {
            assert(rest.len() == 0);
            the_alphabet_is_in_order(bytes[2] as int % 64);
        }
    } else if bytes.len() == 2 {
        the_alphabet_is_in_order((bytes[1] as int % 16) * 4);
    }
}

} // verus!
