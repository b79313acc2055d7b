//! Putting rows in order: a stable sort by keys that compare entry by entry.

use vstd::prelude::*;

use crate::text::chars_of;

verus! {

/// Whether `a` stands before `b` when the two are compared entry by entry, a
/// key that ends first standing before the one that goes on.
pub open spec fn lex_lt(a: Seq<u64>, b: Seq<u64>) -> bool
    decreases a.len(),
{
    if b.len() == 0 {
        false
    } else if a.len() == 0 {
        true
    } else if a[0] != b[0] {
        a[0] < b[0]
    } else {
        lex_lt(a.skip(1), b.skip(1))
    }
}

/// No key stands before itself.
pub proof fn lex_irreflexive(a: Seq<u64>)
    ensures
        !lex_lt(a, a),
    decreases a.len(),
{
    if a.len() > 0 {
        lex_irreflexive(a.skip(1));
    }
}

/// The order of keys is transitive.
pub proof fn lex_transitive(a: Seq<u64>, b: Seq<u64>, c: Seq<u64>)
    requires
        lex_lt(a, b),
        lex_lt(b, c),
    ensures
        lex_lt(a, c),
    decreases a.len(),
{
    if a.len() > 0 && a[0] == b[0] && b[0] == c[0] {
        lex_transitive(a.skip(1), b.skip(1), c.skip(1));
    }
}

/// Of two different keys one stands before the other.
pub proof fn lex_total(a: Seq<u64>, b: Seq<u64>)
    ensures
        a == b || lex_lt(a, b) || lex_lt(b, a),
    decreases a.len(),
{
    if a.len() == 0 || b.len() == 0 {
        if a.len() == 0 && b.len() == 0 {
            assert(a =~= b);
        }
    } else if a[0] == b[0] {
        let x = a.skip(1);
        let y = b.skip(1);
        lex_total(x, y);
        if x == y {
            assert forall|i: int| 0 <= i < a.len() implies a[i] == b[i] by {
                if i > 0 {
                    assert(x[i - 1] == a[i]);
                    assert(y[i - 1] == b[i]);
                }
            }
            assert(x.len() == a.len() - 1);
            assert(a =~= b);
        }
    }
}

/// The keys of rows, as sequences.
pub open spec fn keys_of(keys: Seq<Vec<u64>>) -> Seq<Seq<u64>> {
    keys.map_values(|k: Vec<u64>| k@)
}

/// Whether row `i` goes above row `j`: by their keys, upwards or downwards, and
/// where those are equal by which came first.
pub open spec fn goes_before(keys: Seq<Seq<u64>>, asc: bool, i: int, j: int) -> bool {
    let (a, b) = if asc {
        (keys[i], keys[j])
    } else {
        (keys[j], keys[i])
    };
    lex_lt(a, b) || (a == b && i < j)
}

/// Whether `r` lists each of the first `n` rows once.
pub open spec fn lists_each(r: Seq<usize>, n: int) -> bool {
    &&& r.len() == n
    &&& forall|p: int| 0 <= p < n ==> (#[trigger] r[p]) < n
    &&& forall|p: int, q: int| 0 <= p < q < n ==> (#[trigger] r[p]) != (#[trigger] r[q])
}

/// Whether the rows `r` lists stand in order.
pub open spec fn in_order(r: Seq<usize>, keys: Seq<Seq<u64>>, asc: bool) -> bool {
    forall|p: int, q: int|
        0 <= p < q < r.len() ==> goes_before(keys, asc, #[trigger] r[p] as int, #[trigger] r[q] as int)
}

proof fn before_transitive(keys: Seq<Seq<u64>>, asc: bool, i: int, j: int, k: int)
    requires
        goes_before(keys, asc, i, j),
        goes_before(keys, asc, j, k),
    ensures
        goes_before(keys, asc, i, k),
{
    let (a, b, c) = (keys[i], keys[j], keys[k]);
    if asc {
        if lex_lt(a, b) && lex_lt(b, c) {
            lex_transitive(a, b, c);
        }
    } else {
        if lex_lt(c, b) && lex_lt(b, a) {
            lex_transitive(c, b, a);
        }
    }
}

proof fn before_total(keys: Seq<Seq<u64>>, asc: bool, i: int, j: int)
    requires
        i != j,
    ensures
        goes_before(keys, asc, i, j) || goes_before(keys, asc, j, i),
{
    lex_total(keys[i], keys[j]);
}

/// There is only one order: two listings of the same rows in order are the same
/// listing.
pub proof fn one_order(keys: Seq<Seq<u64>>, asc: bool, r: Seq<usize>, s: Seq<usize>)
    requires
        lists_each(r, keys.len() as int),
        lists_each(s, keys.len() as int),
        in_order(r, keys, asc),
        in_order(s, keys, asc),
    ensures
        r == s,
{
    let n = keys.len() as int;
    if r != s {
        // The first place where they differ.
        assert(exists|p: int| 0 <= p < n && r[p] != s[p]) by {
            if forall|p: int| 0 <= p < n ==> r[p] == s[p] {
                assert(r =~= s);
            }
        }
        let any = choose|p: int| 0 <= p < n && r[p] != s[p];
        let d = first_difference(r, s, any);
        let x = r[d];
        let y = s[d];
        // `y` stands in `r`, and not before `d`; so after it.
        every_row_listed(r, n, y as int);
        let q = choose|q: int| 0 <= q < n && r[q] == y;
        every_row_listed(s, n, x as int);
        let t = choose|t: int| 0 <= t < n && s[t] == x;
        if q < d {
            assert(s[q] == y);
            assert(s[q] != s[d]);
        }
        if t < d {
            assert(r[t] == x);
            assert(r[t] != r[d]);
        }
        assert(goes_before(keys, asc, r[d] as int, r[q] as int));
        assert(goes_before(keys, asc, s[d] as int, s[t] as int));
        before_transitive(keys, asc, x as int, y as int, x as int);
        lex_irreflexive(keys[x as int]);
    }
}

proof fn first_difference(r: Seq<usize>, s: Seq<usize>, any: int) -> (d: int)
    requires
        r.len() == s.len(),
        0 <= any < r.len(),
        r[any] != s[any],
    ensures
        0 <= d <= any,
        r[d] != s[d],
        forall|p: int| 0 <= p < d ==> r[p] == s[p],
    decreases any,
{
    if exists|p: int| 0 <= p < any && r[p] != s[p] {
        let p = choose|p: int| 0 <= p < any && r[p] != s[p];
        first_difference(r, s, p)
    } else {
        any
    }
}

/// A listing that lists each row once lists every row.
pub proof fn every_row_listed(r: Seq<usize>, n: int, x: int)
    requires
        lists_each(r, n),
        0 <= x < n,
    ensures
        exists|q: int| 0 <= q < n && #[trigger] r[q] == x,
{
    if !exists|q: int| 0 <= q < n && #[trigger] r[q] == x {
        let all = Set::<usize>::new(|v: usize| v < n && v != x);
        let there = r.to_set();
        vstd::set_lib::lemma_int_range(0, n);
        let range = vstd::set_lib::set_int_range(0, n);
        r.unique_seq_to_set();
        let image = there.map(|v: usize| v as int);
        assert(r.no_duplicates()) by {
            assert forall|p: int, q: int| 0 <= p < r.len() && 0 <= q < r.len() && p != q implies r[p] != r[q] by {
                if p < q {
                    assert(r[p] != r[q]);
                } else {
                    assert(r[q] != r[p]);
                }
            }
        }
        vstd::set_lib::lemma_map_size(there, image, |v: usize| v as int);
        assert(image.subset_of(range.remove(x))) by {
            assert forall|v: int| image.contains(v) implies range.remove(x).contains(v) by {
                let u = choose|u: usize| there.contains(u) && u as int == v;
                let p = choose|p: int| 0 <= p < r.len() && r[p] == u;
                assert(r[p] < n);
            }
        }
        vstd::set_lib::lemma_len_subset(image, range.remove(x));
        assert(false);
    }
}

/// Whether a key stands before another, entry by entry.
pub fn key_lt(a: &Vec<u64>, b: &Vec<u64>) -> (r: bool)
    ensures
        r == lex_lt(a@, b@),
{
    let mut i: usize = 0;
    assert(a@.skip(0) =~= a@);
    assert(b@.skip(0) =~= b@);
    while i < a.len() && i < b.len() && a[i] == b[i]
        invariant
            i <= a@.len(),
            i <= b@.len(),
            lex_lt(a@, b@) == lex_lt(a@.skip(i as int), b@.skip(i as int)),
        decreases a@.len() - i,
    {
        assert(a@.skip(i as int).skip(1) =~= a@.skip(i + 1));
        assert(b@.skip(i as int).skip(1) =~= b@.skip(i + 1));
        i += 1;
    }
    if i >= b.len() {
        false
    } else if i >= a.len() {
        true
    } else {
        a[i] < b[i]
    }
}

fn key_above(a: &Vec<u64>, b: &Vec<u64>, asc: bool) -> (r: bool)
    ensures
        r == (if asc {
            lex_lt(a@, b@)
        } else {
            lex_lt(b@, a@)
        }),
{
    if asc {
        key_lt(a, b)
    } else {
        key_lt(b, a)
    }
}

/// The rows in the order of their keys.
pub open spec fn sorted(keys: Seq<Seq<u64>>, asc: bool) -> Seq<usize> {
    choose|r: Seq<usize>| #[trigger] lists_each(r, keys.len() as int) && in_order(r, keys, asc)
}

/// The place of row `x` in a listing in order: behind every row that goes above it.
proof fn place_in(r: Seq<usize>, keys: Seq<Seq<u64>>, asc: bool, x: int, p: int) -> (at: int)
    requires
        in_order(r, keys, asc),
        0 <= p <= r.len(),
        forall|q: int| p <= q < r.len() ==> goes_before(keys, asc, x, #[trigger] r[q] as int),
        forall|q: int| 0 <= q < r.len() ==> #[trigger] r[q] != x,
    ensures
        0 <= at <= p,
        forall|q: int| 0 <= q < at ==> goes_before(keys, asc, #[trigger] r[q] as int, x),
        forall|q: int| at <= q < r.len() ==> goes_before(keys, asc, x, #[trigger] r[q] as int),
    decreases p,
{
    if p == 0 {
        0
    } else {
        let last = r[p - 1] as int;
        before_total(keys, asc, last, x);
        if goes_before(keys, asc, last, x) {
            assert forall|q: int| 0 <= q < p implies goes_before(keys, asc, #[trigger] r[q] as int, x) by {
                if q < p - 1 {
                    assert(goes_before(keys, asc, r[q] as int, r[p - 1] as int));
                    before_transitive(keys, asc, r[q] as int, last, x);
                }
            }
            p
        } else {
            place_in(r, keys, asc, x, p - 1)
        }
    }
}

proof fn first_rows_in_order(keys: Seq<Seq<u64>>, asc: bool, n: int) -> (r: Seq<usize>)
    requires
        0 <= n <= keys.len(),
        n <= usize::MAX,
    ensures
        lists_each(r, n),
        in_order(r, keys, asc),
    decreases n,
{
    if n == 0 {
        Seq::empty()
    } else {
        let before = first_rows_in_order(keys, asc, n - 1);
        let x = (n - 1) as usize;
        let at = place_in(before, keys, asc, n - 1, n - 1);
        let r = before.insert(at, x);
        assert forall|p: int| 0 <= p < n implies (#[trigger] r[p]) < n by {
            if p < at {
                assert(r[p] == before[p]);
            } else if p > at {
                assert(r[p] == before[p - 1]);
            }
        }
        assert forall|p: int, q: int| 0 <= p < q < n implies (#[trigger] r[p]) != (#[trigger] r[q]) by {
            let a = if p < at {
                p
            } else {
                p - 1
            };
            let b = if q < at {
                q
            } else {
                q - 1
            };
            if p != at {
                assert(r[p] == before[a]);
            }
            if q != at {
                assert(r[q] == before[b]);
            }
        }
        assert forall|p: int, q: int| 0 <= p < q < r.len() implies goes_before(
            keys,
            asc,
            #[trigger] r[p] as int,
            #[trigger] r[q] as int,
        ) by {
            let a = if p < at {
                p
            } else {
                p - 1
            };
            let b = if q < at {
                q
            } else {
                q - 1
            };
            if p != at {
                assert(r[p] == before[a]);
            }
            if q != at {
                assert(r[q] == before[b]);
            }
        }
        r
    }
}

/// Rows can always be put in order: the listing in order lists each of them once.
pub proof fn every_row_has_its_place(keys: Seq<Seq<u64>>, asc: bool)
    requires
        keys.len() <= usize::MAX,
    ensures
        lists_each(sorted(keys, asc), keys.len() as int),
        in_order(sorted(keys, asc), keys, asc),
{
    let r = first_rows_in_order(keys, asc, keys.len() as int);
    assert(lists_each(r, keys.len() as int) && in_order(r, keys, asc));
}

/// Rows with different keys stand downwards in the reverse of the order in which
/// they stand upwards.
pub proof fn downwards_is_upwards_reversed(keys: Seq<Seq<u64>>)
    requires
        keys.len() <= usize::MAX,
        forall|i: int, j: int| 0 <= i < j < keys.len() ==> #[trigger] keys[i] != #[trigger] keys[j],
    ensures
        sorted(keys, false) == sorted(keys, true).reverse(),
{
    let n = keys.len() as int;
    let up = sorted(keys, true);
    let down = up.reverse();
    every_row_has_its_place(keys, true);
    every_row_has_its_place(keys, false);
    assert forall|p: int, q: int| 0 <= p < q < n implies (#[trigger] down[p]) != (#[trigger] down[q]) by {
        assert(up[n - 1 - q] != up[n - 1 - p]);
    }
    assert forall|p: int, q: int| 0 <= p < q < down.len() implies goes_before(
        keys,
        false,
        #[trigger] down[p] as int,
        #[trigger] down[q] as int,
    ) by {
        let (i, j) = (up[n - 1 - q] as int, up[n - 1 - p] as int);
        assert(goes_before(keys, true, i, j));
        if i < j {
            assert(keys[i] != keys[j]);
        } else {
            assert(keys[j] != keys[i]);
        }
    }
    one_order(keys, false, sorted(keys, false), down);
}

/// The keys of rows that stand in order are in order as they are.
pub proof fn sorting_again_changes_nothing(keys: Seq<Seq<u64>>, asc: bool)
    requires
        keys.len() <= usize::MAX,
    ensures
        sorted(sorted(keys, asc).map_values(|i: usize| keys[i as int]), asc) == Seq::new(keys.len(), |i: int| i as usize),
{
    let n = keys.len() as int;
    let r = sorted(keys, asc);
    every_row_has_its_place(keys, asc);
    let again = r.map_values(|i: usize| keys[i as int]);
    every_row_has_its_place(again, asc);
    let same = Seq::new(keys.len(), |i: int| i as usize);
    assert forall|p: int, q: int| 0 <= p < q < same.len() implies goes_before(
        again,
        asc,
        #[trigger] same[p] as int,
        #[trigger] same[q] as int,
    ) by {
        assert(goes_before(keys, asc, r[p] as int, r[q] as int));
        assert(again[p] == keys[r[p] as int]);
        assert(again[q] == keys[r[q] as int]);
    }
    one_order(again, asc, sorted(again, asc), same);
}

/// The rows in order of their keys, rows with equal keys in the order they came.
pub fn order_by(keys: &Vec<Vec<u64>>, asc: bool) -> (r: Vec<usize>)
    ensures
        lists_each(r@, keys@.len() as int),
        in_order(r@, keys_of(keys@), asc),
        r@ == sorted(keys_of(keys@), asc),
{
    let r = insert_all(keys, asc);
    proof {
        one_order(keys_of(keys@), asc, r@, sorted(keys_of(keys@), asc));
    }
    r
}

fn insert_all(keys: &Vec<Vec<u64>>, asc: bool) -> (r: Vec<usize>)
    ensures
        lists_each(r@, keys@.len() as int),
        in_order(r@, keys_of(keys@), asc),
{
    let mut r: Vec<usize> = Vec::new();
    let mut k: usize = 0;
    let ghost ks = keys_of(keys@);
    while k < keys.len()
        invariant
            k <= keys@.len(),
            ks == keys_of(keys@),
            lists_each(r@, k as int),
            in_order(r@, ks, asc),
        decreases keys@.len() - k,
    {
        let mut p: usize = 0;
        while p < r.len() && !key_above(&keys[k], &keys[r[p]], asc)
            invariant
                p <= r@.len(),
                k < keys@.len(),
                ks == keys_of(keys@),
                lists_each(r@, k as int),
                in_order(r@, ks, asc),
                forall|q: int| 0 <= q < p ==> goes_before(ks, asc, #[trigger] r@[q] as int, k as int),
            decreases r@.len() - p,
        {
            proof {
                lex_total(ks[k as int], ks[r@[p as int] as int]);
            }
            p += 1;
        }
        let ghost was = r@;
        r.insert(p, k);
        proof {
            let now = r@;
            assert forall|a: int, b: int| 0 <= a < b < now.len() implies goes_before(
                ks,
                asc,
                #[trigger] now[a] as int,
                #[trigger] now[b] as int,
            ) by {
                if a < p && b < p {
                    assert(goes_before(ks, asc, was[a] as int, was[b] as int));
                } else if b == p {
                    assert(goes_before(ks, asc, was[a] as int, k as int));
                } else if a < p {
                    assert(goes_before(ks, asc, was[a] as int, was[b - 1] as int));
                } else if a == p {
                    assert(goes_before(ks, asc, k as int, was[p as int] as int));
                    if b - 1 > p {
                        assert(goes_before(ks, asc, was[p as int] as int, was[b - 1] as int));
                        before_transitive(ks, asc, k as int, was[p as int] as int, was[b - 1] as int);
                    }
                } else {
                    assert(goes_before(ks, asc, was[a - 1] as int, was[b - 1] as int));
                }
            }
            assert forall|a: int| 0 <= a < k + 1 implies (#[trigger] now[a]) < k + 1 by {
                if a < p {
                    assert(was[a] < k);
                } else if a > p {
                    assert(was[a - 1] < k);
                }
            }
            assert forall|a: int, b: int| 0 <= a < b < k + 1 implies (#[trigger] now[a]) != (#[trigger] now[b]) by {
                let x = if a < p { a } else { a - 1 };
                let y = if b < p { b } else { b - 1 };
                if a != p {
                    assert(was[x] < k);
                }
                if b != p {
                    assert(was[y] < k);
                }
                if a != p && b != p {
                    assert(was[x] != was[y]);
                }
            }
        }
        k += 1;
    }
    r
}

/// The characters of a text as numbers, which order as the text does.
pub open spec fn letters(s: Seq<char>) -> Seq<u64> {
    s.map_values(|c: char| c as u64)
}

/// The characters of a text as numbers, which order as the text does.
pub fn letters_of(s: &str) -> (r: Vec<u64>)
    ensures
        r@ == letters(s@),
{
    let v = chars_of(s);
    let mut out: Vec<u64> = Vec::new();
    let mut i: usize = 0;
    while i < v.len()
        invariant
            i <= v@.len(),
            out@ == letters(v@.take(i as int)),
        decreases v@.len() - i,
    {
        out.push(v[i] as u64);
        assert(out@ =~= letters(v@.take(i + 1)));
        i += 1;
    }
    assert(v@.take(i as int) =~= v@);
    out
}

/// The characters of a text as numbers, closed off so that a text stands before
/// every other that goes on from it, whatever comes behind the two.
pub open spec fn closed_letters(s: Seq<char>) -> Seq<u64> {
    s.map_values(|c: char| (c as u64 + 1) as u64).push(0)
}

/// There is room for one more behind every character.
pub proof fn letter_fits(c: char)
    ensures
        (c as u64) < u64::MAX,
{
}

/// The characters of a text as numbers, closed off.
pub fn closed_letters_of(s: &str) -> (r: Vec<u64>)
    ensures
        r@ == closed_letters(s@),
{
    let v = chars_of(s);
    let mut out: Vec<u64> = Vec::new();
    let mut i: usize = 0;
    while i < v.len()
        invariant
            i <= v@.len(),
            out@ == v@.take(i as int).map_values(|c: char| (c as u64 + 1) as u64),
        decreases v@.len() - i,
    {
        let c = v[i];
        proof {
            letter_fits(c);
        }
        out.push(c as u64 + 1);
        assert(out@ =~= v@.take(i + 1).map_values(|c: char| (c as u64 + 1) as u64));
        i += 1;
    }
    assert(v@.take(i as int) =~= v@);
    out.push(0);
    out
}

/// A large number as a key.
pub open spec fn wide(n: u128) -> Seq<u64> {
    seq![(n / 0x1_0000_0000_0000_0000) as u64, (n % 0x1_0000_0000_0000_0000) as u64]
}

/// A large number as a key.
pub fn wide_of(n: u128) -> (r: Vec<u64>)
    ensures
        r@ == wide(n),
{
    let mut key: Vec<u64> = Vec::new();
    key.push((n / 0x1_0000_0000_0000_0000) as u64);
    key.push((n % 0x1_0000_0000_0000_0000) as u64);
    assert(key@ =~= wide(n));
    key
}

/// Whether a text stands before another, character by character.
pub open spec fn text_before(a: Seq<char>, b: Seq<char>) -> bool {
    lex_lt(letters(a), letters(b))
}

/// Whether a text stands before another, character by character.
pub fn text_lt(a: &str, b: &str) -> (r: bool)
    ensures
        r == text_before(a@, b@),
{
    key_lt(&letters_of(a), &letters_of(b))
}

pub(crate) proof fn one_letter(c: char, d: char)
    requires
        c as u64 == d as u64,
    ensures
        c == d,
{
}

/// Texts that neither stands before the other are the same.
pub proof fn text_total(a: Seq<char>, b: Seq<char>)
    ensures
        a == b || text_before(a, b) || text_before(b, a),
{
    lex_total(letters(a), letters(b));
    if letters(a) == letters(b) {
        assert(letters(a).len() == a.len());
        assert(letters(b).len() == b.len());
        assert forall|i: int| 0 <= i < a.len() implies a[i] == b[i] by {
            assert(letters(a)[i] == a[i] as u64);
            assert(letters(b)[i] == b[i] as u64);
            one_letter(a[i], b[i]);
        }
        assert(a =~= b);
    }
}

/// No text stands before itself.
pub proof fn text_irreflexive(a: Seq<char>)
    ensures
        !text_before(a, a),
{
    lex_irreflexive(letters(a));
}

/// The order of texts is transitive.
pub proof fn text_transitive(a: Seq<char>, b: Seq<char>, c: Seq<char>)
    requires
        text_before(a, b),
        text_before(b, c),
    ensures
        text_before(a, c),
{
    lex_transitive(letters(a), letters(b), letters(c));
}

/// What two keys begin with alike does not matter: the first place they differ in
/// decides, and where they differ in none the shorter stands first.
pub proof fn the_first_difference_decides(p: Seq<u64>, x: u64, y: u64, s: Seq<u64>, t: Seq<u64>)
    ensures
        x != y ==> (lex_lt(p.push(x) + s, p.push(y) + t) <==> x < y),
        lex_lt(p, p.push(x) + s),
        !lex_lt(p.push(x) + s, p),
    decreases p.len(),
{
    let (a, b) = (p.push(x) + s, p.push(y) + t);
    if p.len() > 0 {
        let q = p.skip(1);
        the_first_difference_decides(q, x, y, s, t);
        assert(a.skip(1) =~= q.push(x) + s);
        assert(b.skip(1) =~= q.push(y) + t);
        assert(a[0] == p[0] && b[0] == p[0]);
    } else {
        assert(a[0] == x && b[0] == y);
    }
}

/// Texts stand as words do in a dictionary of their characters: the first character
/// they differ in decides, and a text stands before one that goes on.
pub proof fn texts_stand_as_in_a_dictionary(p: Seq<char>, x: char, y: char, s: Seq<char>, t: Seq<char>)
    ensures
        x != y ==> (text_before(p.push(x) + s, p.push(y) + t) <==> x < y),
        text_before(p, p.push(x) + s),
        !text_before(p.push(x) + s, p),
{
    the_first_difference_decides(letters(p), x as u64, y as u64, letters(s), letters(t));
    assert(letters(p.push(x) + s) =~= letters(p).push(x as u64) + letters(s));
    assert(letters(p.push(y) + t) =~= letters(p).push(y as u64) + letters(t));
    letter_fits(x);
    letter_fits(y);
}

/// A key that begins with a text that is closed off orders as the text does, whatever
/// follows it.
pub proof fn closed_off_texts_order_as_texts(s: Seq<char>, t: Seq<char>, x: Seq<u64>, y: Seq<u64>)
    requires
        lex_lt(closed_letters(s) + x, closed_letters(t) + y),
    ensures
        s == t || text_before(s, t),
    decreases s.len(),
{
    let (a, b) = (closed_letters(s) + x, closed_letters(t) + y);
    if s.len() == 0 {
        if t.len() > 0 {
            assert(letters(s).len() == 0 && letters(t).len() > 0);
        } else {
            assert(s =~= t);
        }
    } else {
        letter_fits(s[0]);
        assert(a[0] == (s[0] as u64 + 1) as u64);
        if t.len() == 0 {
            assert(b[0] == 0);
        } else {
            letter_fits(t[0]);
            assert(b[0] == (t[0] as u64 + 1) as u64);
            assert(letters(s)[0] == s[0] as u64 && letters(t)[0] == t[0] as u64);
            if s[0] == t[0] {
                let (u, v) = (s.skip(1), t.skip(1));
                assert(a.skip(1) =~= closed_letters(u) + x);
                assert(b.skip(1) =~= closed_letters(v) + y);
                closed_off_texts_order_as_texts(u, v, x, y);
                assert(letters(s).skip(1) =~= letters(u));
                assert(letters(t).skip(1) =~= letters(v));
                if u == v {
                    assert(s =~= seq![s[0]] + u);
                    assert(t =~= seq![t[0]] + v);
                }
            } else {
                if s[0] as u64 == t[0] as u64 {
                    one_letter(s[0], t[0]);
                }
                assert(a[0] != b[0]);
            }
        }
    }
}

} // verus!
