//! Strings as sequences of characters: cutting, joining and writing numbers.

use vstd::prelude::*;

verus! {

/// The characters of `s`, one by one.
pub fn chars_of(s: &str) -> (r: Vec<char>)
    ensures
        r@ == s@,
{
    let mut v: Vec<char> = Vec::new();
    for c in it: s.chars()
        invariant
            it.seq() == s@,
            v@.len() == it.index(),
            forall|j: int| 0 <= j < v@.len() ==> v@[j] == it.seq()[j],
    {
        v.push(c);
    }
    assert(v@ =~= s@);
    v
}

/// The characters `from..to` of `v` as a string.
pub fn string_between(v: &Vec<char>, from: usize, to: usize) -> (r: String)
    requires
        from <= to <= v@.len(),
    ensures
        r@ == v@.subrange(from as int, to as int),
{
    let mut s = String::new();
    let mut i: usize = from;
    while i < to
        invariant
            from <= i <= to <= v@.len(),
            s@ == v@.subrange(from as int, i as int),
        decreases to - i,
    {
        s.push(v[i]);
        i += 1;
    }
    s
}

/// All of `v` as a string.
pub fn string_of(v: &Vec<char>) -> (r: String)
    ensures
        r@ == v@,
{
    let r = string_between(v, 0, v.len());
    assert(v@.subrange(0, v@.len() as int) =~= v@);
    r
}

/// Whether two strings hold the same characters.
pub fn same(a: &str, b: &str) -> (r: bool)
    ensures
        r == (a@ == b@),
{
    let x = chars_of(a);
    let y = chars_of(b);
    if x.len() != y.len() {
        return false;
    }
    let mut i: usize = 0;
    while i < x.len()
        invariant
            i <= x@.len(),
            x@.len() == y@.len(),
            x@ == a@,
            y@ == b@,
            forall|j: int| 0 <= j < i ==> x@[j] == y@[j],
        decreases x@.len() - i,
    {
        if x[i] != y[i] {
            return false;
        }
        i += 1;
    }
    assert(x@ =~= y@);
    true
}

/// `a` and `b`, joined.
pub fn cat(a: &str, b: &str) -> (r: String)
    ensures
        r@ == a@ + b@,
{
    let mut s = a.to_owned();
    s.append(b);
    s
}

/// The digit `d`.
pub open spec fn digit(d: int) -> char {
    if d == 0 { '0' } else if d == 1 { '1' } else if d == 2 { '2' } else if d == 3 { '3' }
    else if d == 4 { '4' } else if d == 5 { '5' } else if d == 6 { '6' } else if d == 7 { '7' }
    else if d == 8 { '8' } else { '9' }
}

/// `n` in decimal, without leading zeros.
pub open spec fn dec(n: nat) -> Seq<char>
    decreases n,
{
    if n < 10 {
        seq![digit(n as int)]
    } else {
        dec(n / 10).push(digit((n % 10) as int))
    }
}

fn digit_of(d: u128) -> (r: char)
    requires
        d < 10,
    ensures
        r == digit(d as int),
{
    match d {
        0 => '0',
        1 => '1',
        2 => '2',
        3 => '3',
        4 => '4',
        5 => '5',
        6 => '6',
        7 => '7',
        8 => '8',
        _ => '9',
    }
}

/// `n` written in decimal.
pub fn decimal(n: u128) -> (r: String)
    ensures
        r@ == dec(n as nat),
    decreases n,
{
    if n < 10 {
        let mut s = String::new();
        s.push(digit_of(n));
        assert(s@ =~= dec(n as nat));
        s
    } else {
        let mut s = decimal(n / 10);
        s.push(digit_of(n % 10));
        s
    }
}

/// The number that the digits of a text make, whatever stands between them.
pub open spec fn reading(s: Seq<char>) -> int
    decreases s.len(),
{
    if s.len() == 0 {
        0
    } else if '0' <= s.last() <= '9' {
        reading(s.drop_last()) * 10 + (s.last() as int - '0' as int)
    } else {
        reading(s.drop_last())
    }
}

/// A number that is written reads as that number, and is written in digits alone.
pub proof fn a_number_reads_back(n: nat)
    ensures
        reading(dec(n)) == n,
        dec(n).len() >= 1,
        forall|i: int| 0 <= i < dec(n).len() ==> '0' <= #[trigger] dec(n)[i] <= '9',
        n > 0 ==> dec(n)[0] != '0',
    decreases n,
{
    if n < 10 {
        assert(dec(n).drop_last() =~= Seq::<char>::empty());
        assert(dec(n).last() == digit(n as int));
        assert(reading(Seq::<char>::empty()) == 0);
    } else {
        a_number_reads_back(n / 10);
        assert(dec(n).drop_last() =~= dec(n / 10));
        assert(dec(n).last() == digit((n % 10) as int));
    }
}

/// What is written behind a text that is no digit does not change the number.
pub proof fn only_digits_are_read(s: Seq<char>, t: Seq<char>)
    requires
        forall|i: int| 0 <= i < t.len() ==> !('0' <= #[trigger] t[i] <= '9'),
    ensures
        reading(s + t) == reading(s),
    decreases t.len(),
{
    if t.len() == 0 {
        assert(s + t =~= s);
    } else {
        only_digits_are_read(s, t.drop_last());
        assert((s + t).drop_last() =~= s + t.drop_last());
        assert((s + t).last() == t[t.len() - 1]);
    }
}

proof fn nothing_before_is_read(t: Seq<char>, s: Seq<char>)
    requires
        forall|i: int| 0 <= i < t.len() ==> !('0' <= #[trigger] t[i] <= '9'),
    ensures
        reading(t + s) == reading(s),
    decreases s.len(),
{
    if s.len() == 0 {
        only_digits_are_read(Seq::empty(), t);
        assert(Seq::<char>::empty() + t =~= t);
        assert(t + s =~= t);
        assert(reading(Seq::<char>::empty()) == 0);
    } else {
        nothing_before_is_read(t, s.drop_last());
        assert((t + s).drop_last() =~= t + s.drop_last());
        assert((t + s).last() == s.last());
    }
}

/// What stands before a text that is no digit does not change the number.
pub proof fn marks_before_are_not_read(t: Seq<char>, s: Seq<char>)
    requires
        forall|i: int| 0 <= i < t.len() ==> !('0' <= #[trigger] t[i] <= '9'),
    ensures
        reading(t + s) == reading(s),
{
    nothing_before_is_read(t, s);
}

/// A text that is cut fits, and begins as the whole does; one that fits is not cut.
pub proof fn a_cut_text_begins_the_same(s: Seq<char>, max: int)
    requires
        max >= 0,
    ensures
        cut(s, max).len() <= max,
        s.len() <= max ==> cut(s, max) == s,
        s.len() > max && max >= 1 ==> cut(s, max).len() == max && cut(s, max).last() == '…' && forall|i: int|
            0 <= i < max - 1 ==> #[trigger] cut(s, max)[i] == s[i],
{
}

/// A text put in `w` cells is in them whole, and the rest are blank.
pub proof fn padding_keeps_the_text(s: Seq<char>, w: int)
    ensures
        left_in(s, w).take(s.len() as int) == s,
        right_in(s, w).skip(right_in(s, w).len() - s.len()) == s,
        s.len() <= w ==> left_in(s, w).len() == w && right_in(s, w).len() == w,
        s.len() >= w ==> left_in(s, w) == s && right_in(s, w) == s,
        forall|i: int| s.len() <= i < left_in(s, w).len() ==> #[trigger] left_in(s, w)[i] == ' ',
        forall|i: int| 0 <= i < right_in(s, w).len() - s.len() ==> #[trigger] right_in(s, w)[i] == ' ',
{
    assert(left_in(s, w).take(s.len() as int) =~= s);
    assert(right_in(s, w).skip(right_in(s, w).len() - s.len()) =~= s);
    if s.len() >= w {
        assert(left_in(s, w) =~= s);
        assert(right_in(s, w) =~= s);
    }
}

/// `n` times `c`.
pub open spec fn times(c: char, n: int) -> Seq<char> {
    Seq::new(if n < 0 { 0 } else { n as nat }, |i: int| c)
}

/// `n` times `c`, as a string.
pub fn repeat(c: char, n: usize) -> (r: String)
    ensures
        r@ == times(c, n as int),
{
    let mut s = String::new();
    let mut i: usize = 0;
    while i < n
        invariant
            i <= n,
            s@ =~= times(c, i as int),
        decreases n - i,
    {
        s.push(c);
        i += 1;
    }
    s
}

/// `s` with blanks behind it, up to `w` characters.
pub open spec fn left_in(s: Seq<char>, w: int) -> Seq<char> {
    s + times(' ', w - s.len())
}

/// `s` with blanks before it, up to `w` characters.
pub open spec fn right_in(s: Seq<char>, w: int) -> Seq<char> {
    times(' ', w - s.len()) + s
}

/// `b` between `a` and `c`.
pub fn between(a: &str, b: &str, c: &str) -> (r: String)
    ensures
        r@ == a@ + b@ + c@,
{
    let mut s = cat(a, b);
    s.append(c);
    s
}

/// How many characters `s` has.
pub fn count(s: &str) -> (r: usize)
    ensures
        r == s@.len(),
{
    s.unicode_len()
}

/// `s` with blanks behind it, up to `w` characters.
pub fn pad_right(s: &str, w: usize) -> (r: String)
    ensures
        r@ == left_in(s@, w as int),
{
    let n: usize = count(s);
    let blanks = repeat(' ', w.saturating_sub(n));
    assert(blanks@ =~= times(' ', w - s@.len()));
    cat(s, blanks.as_str())
}

/// `s` with blanks before it, up to `w` characters.
pub fn pad_left(s: &str, w: usize) -> (r: String)
    ensures
        r@ == right_in(s@, w as int),
{
    let n: usize = count(s);
    let blanks = repeat(' ', w.saturating_sub(n));
    assert(blanks@ =~= times(' ', w - s@.len()));
    cat(blanks.as_str(), s)
}

/// The mark that stands for text left out.
pub open spec fn ellipsis() -> Seq<char> {
    seq!['…']
}

/// `s` cut to `max` characters, the last of them an ellipsis where it was cut.
pub open spec fn cut(s: Seq<char>, max: int) -> Seq<char> {
    if s.len() <= max {
        s
    } else if max <= 0 {
        Seq::<char>::empty()
    } else {
        s.take(max - 1) + ellipsis()
    }
}

/// `s` cut to `max` characters, the last of them an ellipsis where it was cut.
pub fn truncate(s: &str, max: usize) -> (r: String)
    ensures
        r@ == cut(s@, max as int),
        r@.len() <= max,
{
    let n: usize = count(s);
    if n <= max {
        s.to_owned()
    } else if max == 0 {
        String::new()
    } else {
        let v = chars_of(s);
        let mut r = string_between(&v, 0, max - 1);
        r.push('…');
        assert(r@ =~= cut(s@, max as int));
        r
    }
}

/// Whether `s` begins with `p`.
pub open spec fn begins(s: Seq<char>, p: Seq<char>) -> bool {
    p.len() <= s.len() && s.take(p.len() as int) == p
}

/// Whether `s` ends with `p`.
pub open spec fn ends(s: Seq<char>, p: Seq<char>) -> bool {
    p.len() <= s.len() && s.skip(s.len() - p.len()) == p
}

/// What stands behind `p`, where `s` begins with it.
pub fn after_prefix(s: &str, p: &str) -> (r: Option<String>)
    ensures
        r is Some <==> begins(s@, p@),
        r matches Some(t) ==> t@ == s@.skip(p@.len() as int),
{
    let v = chars_of(s);
    let n: usize = count(p);
    if n > v.len() {
        return None;
    }
    let first = string_between(&v, 0, n);
    assert(v@.subrange(0, n as int) =~= s@.take(n as int));
    if same(first.as_str(), p) {
        let rest = string_between(&v, n, v.len());
        assert(rest@ =~= s@.skip(n as int));
        Some(rest)
    } else {
        None
    }
}

/// What stands before `p`, where `s` ends with it.
pub fn before_suffix(s: &str, p: &str) -> (r: Option<String>)
    ensures
        r is Some <==> ends(s@, p@),
        r matches Some(t) ==> t@ == s@.take(s@.len() - p@.len()),
{
    let v = chars_of(s);
    let n: usize = count(p);
    if n > v.len() {
        return None;
    }
    let at: usize = v.len() - n;
    let last = string_between(&v, at, v.len());
    assert(last@ =~= s@.skip(at as int));
    if same(last.as_str(), p) {
        let rest = string_between(&v, 0, at);
        assert(rest@ =~= s@.take(at as int));
        Some(rest)
    } else {
        None
    }
}

/// What the strings say.
pub open spec fn words(v: Seq<String>) -> Seq<Seq<char>> {
    v.map_values(|s: String| s@)
}

/// Put a string behind the others.
pub fn push_word(v: &mut Vec<String>, s: String)
    ensures
        words(final(v)@) == words(old(v)@).push(s@),
{
    let ghost sv = s@;
    v.push(s);
    assert(words(v@) =~= words(old(v)@).push(sv));
}

/// The parts, one behind the other, with `sep` between them.
pub open spec fn joined(parts: Seq<String>, sep: Seq<char>) -> Seq<char>
    decreases parts.len(),
{
    if parts.len() == 0 {
        Seq::empty()
    } else if parts.len() == 1 {
        parts[0]@
    } else {
        joined(parts.drop_last(), sep) + sep + parts.last()@
    }
}

/// The parts, one behind the other, with `sep` between them.
pub fn join(parts: &Vec<String>, sep: &str) -> (r: String)
    ensures
        r@ == joined(parts@, sep@),
{
    let mut s = String::new();
    let mut i: usize = 0;
    while i < parts.len()
        invariant
            i <= parts@.len(),
            s@ == joined(parts@.take(i as int), sep@),
        decreases parts@.len() - i,
    {
        if i > 0 {
            s.append(sep);
        }
        s.append(parts[i].as_str());
        proof {
            let now = parts@.take(i + 1);
            assert(now.drop_last() =~= parts@.take(i as int));
            assert(now.last() == parts@[i as int]);
            if i == 0 {
                assert(s@ =~= parts@[0]@);
            }
        }
        i += 1;
    }
    assert(parts@.take(i as int) =~= parts@);
    s
}

/// Where the first line break of `s` stands, `s.len()` where there is none.
pub open spec fn first_break(s: Seq<char>) -> int
    decreases s.len(),
{
    if s.len() == 0 || s[0] == '\n' {
        0
    } else {
        1 + first_break(s.skip(1))
    }
}

/// A line without the carriage return that is part of its break.
pub open spec fn without_return(s: Seq<char>) -> Seq<char> {
    if s.len() > 0 && s.last() == '\r' {
        s.drop_last()
    } else {
        s
    }
}

proof fn break_bounds(s: Seq<char>)
    ensures
        0 <= first_break(s) <= s.len(),
    decreases s.len(),
{
    if s.len() > 0 && s[0] != '\n' {
        break_bounds(s.skip(1));
    }
}

/// The lines of `s`: what stands between its line breaks, with no empty line
/// behind the last of them.
pub open spec fn lines_of(s: Seq<char>) -> Seq<Seq<char>>
    decreases s.len(),
{
    if s.len() == 0 {
        Seq::empty()
    } else {
        let at = first_break(s);
        if 0 <= at < s.len() {
            seq![without_return(s.take(at))] + lines_of(s.skip(at + 1))
        } else {
            seq![s]
        }
    }
}

/// The lines of `s`.
pub fn lines(s: &str) -> (r: Vec<String>)
    ensures
        words(r@) == lines_of(s@),
{
    let v = chars_of(s);
    let mut out: Vec<String> = Vec::new();
    let mut from: usize = 0;
    assert(v@.skip(0) =~= v@);
    assert(words(out@) + lines_of(v@) =~= lines_of(v@));
    while from < v.len()
        invariant
            from <= v@.len(),
            words(out@) + lines_of(v@.skip(from as int)) == lines_of(v@),
        decreases v@.len() - from,
    {
        let ghost rest = v@.skip(from as int);
        proof {
            break_bounds(rest);
        }
        let mut at: usize = from;
        assert(rest =~= v@.skip(at as int));
        while at < v.len() && v[at] != '\n'
            invariant
                from <= at <= v@.len(),
                rest == v@.skip(from as int),
                first_break(rest) == at - from + first_break(v@.skip(at as int)),
            decreases v@.len() - at,
        {
            assert(v@.skip(at as int).skip(1) =~= v@.skip(at + 1));
            at += 1;
        }
        let ghost was = words(out@);
        if at < v.len() {
            let end: usize = if at > from && v[at - 1] == '\r' {
                at - 1
            } else {
                at
            };
            let one = string_between(&v, from, end);
            proof {
                let whole = rest.take(at - from);
                if end < at {
                    assert(whole.last() == v@[at - 1]);
                    assert(one@ =~= whole.drop_last());
                } else {
                    assert(one@ =~= whole);
                    if whole.len() > 0 {
                        assert(whole.last() == v@[at - 1]);
                    }
                }
                assert(one@ == without_return(whole));
                assert(rest.skip(at - from + 1) =~= v@.skip(at + 1));
            }
            let ghost text = one@;
            push_word(&mut out, one);
            assert(words(out@) + lines_of(v@.skip(at + 1)) =~= was + lines_of(rest));
            from = at + 1;
        } else {
            let one = string_between(&v, from, at);
            assert(one@ =~= rest);
            push_word(&mut out, one);
            assert(words(out@) + lines_of(v@.skip(at as int)) =~= was + lines_of(rest));
            from = at;
        }
    }
    assert(v@.skip(from as int) =~= Seq::<char>::empty());
    assert(words(out@) =~= lines_of(v@));
    out
}

/// Whether a character is white space.
pub open spec fn white(c: char) -> bool {
    ||| c == ' '
    ||| '\t' <= c <= '\r'
    ||| c == '\u{85}'
    ||| c == '\u{a0}'
    ||| c == '\u{1680}'
    ||| '\u{2000}' <= c <= '\u{200a}'
    ||| c == '\u{2028}'
    ||| c == '\u{2029}'
    ||| c == '\u{202f}'
    ||| c == '\u{205f}'
    ||| c == '\u{3000}'
}

/// Whether a character is white space.
pub fn is_white(c: char) -> (r: bool)
    ensures
        r == white(c),
{
    c == ' ' || ('\t' <= c && c <= '\r') || c == '\u{85}' || c == '\u{a0}' || c == '\u{1680}' || ('\u{2000}' <= c && c
        <= '\u{200a}') || c == '\u{2028}' || c == '\u{2029}' || c == '\u{202f}' || c == '\u{205f}' || c == '\u{3000}'
}

/// `s` without the white space before it.
pub open spec fn trimmed_start(s: Seq<char>) -> Seq<char>
    decreases s.len(),
{
    if s.len() > 0 && white(s[0]) {
        trimmed_start(s.skip(1))
    } else {
        s
    }
}

/// `s` without the white space behind it.
pub open spec fn trimmed_end(s: Seq<char>) -> Seq<char>
    decreases s.len(),
{
    if s.len() > 0 && white(s.last()) {
        trimmed_end(s.drop_last())
    } else {
        s
    }
}

/// `s` without the white space around it.
pub open spec fn trimmed(s: Seq<char>) -> Seq<char> {
    trimmed_end(trimmed_start(s))
}

/// `s` without the quotes before it.
pub open spec fn unquoted_start(s: Seq<char>) -> Seq<char>
    decreases s.len(),
{
    if s.len() > 0 && s[0] == '"' {
        unquoted_start(s.skip(1))
    } else {
        s
    }
}

/// `s` without the quotes behind it.
pub open spec fn unquoted_end(s: Seq<char>) -> Seq<char>
    decreases s.len(),
{
    if s.len() > 0 && s.last() == '"' {
        unquoted_end(s.drop_last())
    } else {
        s
    }
}

/// `s` without the quotes around it.
pub open spec fn unquoted(s: Seq<char>) -> Seq<char> {
    unquoted_end(unquoted_start(s))
}

/// `s` without the quotes around it.
pub fn unquote(s: &str) -> (r: String)
    ensures
        r@ == unquoted(s@),
{
    let v = chars_of(s);
    let mut i: usize = 0;
    assert(v@.skip(0) =~= v@);
    while i < v.len() && v[i] == '"'
        invariant
            i <= v@.len(),
            unquoted_start(v@) == unquoted_start(v@.skip(i as int)),
        decreases v@.len() - i,
    {
        assert(v@.skip(i as int).skip(1) =~= v@.skip(i + 1));
        i += 1;
    }
    let ghost t = v@.skip(i as int);
    let mut n: usize = v.len();
    assert(t.take(n - i) =~= t);
    while n > i && v[n - 1] == '"'
        invariant
            i <= n <= v@.len(),
            t == v@.skip(i as int),
            unquoted_end(t) == unquoted_end(t.take(n - i)),
        decreases n,
    {
        assert(t.take(n - i).drop_last() =~= t.take(n - i - 1));
        n -= 1;
    }
    let r = string_between(&v, i, n);
    assert(r@ =~= t.take(n - i));
    r
}

/// `s` without the white space before it.
pub fn trim_start(s: &str) -> (r: String)
    ensures
        r@ == trimmed_start(s@),
{
    let v = chars_of(s);
    let mut i: usize = 0;
    assert(v@.skip(0) =~= v@);
    while i < v.len() && is_white(v[i])
        invariant
            i <= v@.len(),
            trimmed_start(v@) == trimmed_start(v@.skip(i as int)),
        decreases v@.len() - i,
    {
        assert(v@.skip(i as int).skip(1) =~= v@.skip(i + 1));
        i += 1;
    }
    let r = string_between(&v, i, v.len());
    assert(r@ =~= v@.skip(i as int));
    r
}

/// `s` without the white space around it.
pub fn trim(s: &str) -> (r: String)
    ensures
        r@ == trimmed(s@),
{
    let t = trim_start(s);
    let v = chars_of(t.as_str());
    let mut n: usize = v.len();
    assert(v@.take(n as int) =~= v@);
    while n > 0 && is_white(v[n - 1])
        invariant
            n <= v@.len(),
            trimmed_end(v@) == trimmed_end(v@.take(n as int)),
        decreases n,
    {
        assert(v@.take(n as int).drop_last() =~= v@.take(n - 1));
        n -= 1;
    }
    let r = string_between(&v, 0, n);
    assert(r@ =~= v@.take(n as int));
    r
}

/// White space is taken from around a text and from nowhere else.
pub proof fn only_what_is_around_is_trimmed(a: Seq<char>, s: Seq<char>, b: Seq<char>)
    requires
        forall|i: int| 0 <= i < a.len() ==> white(#[trigger] a[i]),
        forall|i: int| 0 <= i < b.len() ==> white(#[trigger] b[i]),
        s.len() > 0,
        !white(s[0]),
        !white(s.last()),
    ensures
        trimmed(a + s + b) == s,
        trimmed_start(a + s + b) == s + b,
{
    blanks_before_go(a, s + b);
    assert(a + s + b =~= a + (s + b));
    blanks_behind_go(s, b);
}

proof fn blanks_before_go(a: Seq<char>, s: Seq<char>)
    requires
        forall|i: int| 0 <= i < a.len() ==> white(#[trigger] a[i]),
        s.len() > 0,
        !white(s[0]),
    ensures
        trimmed_start(a + s) == s,
    decreases a.len(),
{
    if a.len() > 0 {
        assert((a + s)[0] == a[0]);
        assert((a + s).skip(1) =~= a.skip(1) + s);
        blanks_before_go(a.skip(1), s);
    } else {
        assert(a + s =~= s);
    }
}

proof fn blanks_behind_go(s: Seq<char>, b: Seq<char>)
    requires
        forall|i: int| 0 <= i < b.len() ==> white(#[trigger] b[i]),
        s.len() > 0,
        !white(s.last()),
    ensures
        trimmed_end(s + b) == s,
    decreases b.len(),
{
    if b.len() > 0 {
        assert((s + b).last() == b[b.len() - 1]);
        assert((s + b).drop_last() =~= s + b.drop_last());
        blanks_behind_go(s, b.drop_last());
    } else {
        assert(s + b =~= s);
    }
}

/// A text in quotes is the text between them.
pub proof fn quotes_are_taken_off(s: Seq<char>)
    requires
        s.len() > 0,
        s[0] != '"',
        s.last() != '"',
    ensures
        unquoted("\""@ + s + "\""@) == s,
        unquoted(s) == s,
{
    reveal_strlit("\"");
    let q = "\""@;
    let all = q + s + q;
    assert(all.skip(1) =~= s + q);
    assert((s + q)[0] == s[0]);
    assert((s + q).last() == '"');
    assert((s + q).drop_last() =~= s);
    assert(unquoted_start(s + q) == s + q);
    assert(unquoted_start(all) == s + q);
    assert(unquoted_end(s) == s);
    assert(unquoted_end(s + q) == s);
}

proof fn the_break_is_found(line: Seq<char>, rest: Seq<char>)
    requires
        forall|i: int| 0 <= i < line.len() ==> #[trigger] line[i] != '\n',
    ensures
        first_break(line) == line.len(),
        first_break(line + "\n"@ + rest) == line.len(),
    decreases line.len(),
{
    reveal_strlit("\n");
    let all = line + "\n"@ + rest;
    if line.len() > 0 {
        assert(all[0] == line[0]);
        assert(all.skip(1) =~= line.skip(1) + "\n"@ + rest);
        the_break_is_found(line.skip(1), rest);
    } else {
        assert(all[0] == '\n');
    }
}

/// The lines of a text are what stands before its first break, and then the lines of
/// the rest; a carriage return before the break belongs to it, and a text without a
/// break is one line.
pub proof fn a_line_ends_at_its_break(line: Seq<char>, rest: Seq<char>)
    requires
        forall|i: int| 0 <= i < line.len() ==> #[trigger] line[i] != '\n' && line[i] != '\r',
    ensures
        lines_of(line + "\n"@ + rest) == seq![line] + lines_of(rest),
        lines_of(line + "\r\n"@ + rest) == seq![line] + lines_of(rest),
        line.len() > 0 ==> lines_of(line) == seq![line],
        lines_of(Seq::empty()).len() == 0,
{
    reveal_strlit("\n");
    reveal_strlit("\r\n");
    let all = line + "\n"@ + rest;
    the_break_is_found(line, rest);
    assert(all.take(line.len() as int) =~= line);
    assert(all.skip(line.len() as int + 1) =~= rest);
    let long = line.push('\r');
    let both = line + "\r\n"@ + rest;
    assert(both =~= long + "\n"@ + rest);
    assert forall|i: int| 0 <= i < long.len() implies #[trigger] long[i] != '\n' by {
        if i < line.len() {
            assert(long[i] == line[i]);
        }
    }
    the_break_is_found(long, rest);
    assert(both.take(long.len() as int) =~= long);
    assert(both.skip(long.len() as int + 1) =~= rest);
    assert(long.drop_last() =~= line);
}

/// Parts are joined in their order with the separator between them and nowhere else.
pub proof fn parts_are_joined_in_order(parts: Seq<String>, last: String, sep: Seq<char>)
    ensures
        joined(Seq::empty(), sep).len() == 0,
        joined(seq![last], sep) == last@,
        parts.len() > 0 ==> joined(parts.push(last), sep) == joined(parts, sep) + sep + last@,
{
    assert(parts.push(last).drop_last() =~= parts);
}

} // verus!
