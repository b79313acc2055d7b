//! Stepping round a ring of places.

use vstd::prelude::*;

verus! {

/// The place `delta` steps along from `at` on a ring of `n`.
pub open spec fn stepped(at: int, delta: int, n: int) -> int {
    (at + delta) % n
}

/// The place `delta` steps along from `at` on a ring of `n`.
pub fn step(at: usize, delta: isize, n: usize) -> (r: usize)
    requires
        n > 0,
    ensures
        r == stepped(at as int, delta as int, n as int),
        r < n,
{
    around(at, delta, n as u128) as usize
}

/// The place `delta` steps along from `at` on a ring of one more than `n`.
pub fn step_to(at: usize, delta: isize, n: usize) -> (r: usize)
    ensures
        r == stepped(at as int, delta as int, n as int + 1),
        r <= n,
{
    around(at, delta, n as u128 + 1) as usize
}

fn around(at: usize, delta: isize, n: u128) -> (r: u128)
    requires
        0 < n <= usize::MAX + 1,
    ensures
        r == stepped(at as int, delta as int, n as int),
        r < n,
{
    let here: u128 = at as u128 % n;
    let far: i128 = delta as i128;
    if far >= 0 {
        let by: u128 = far as u128 % n;
        proof {
            vstd::arithmetic::div_mod::lemma_add_mod_noop(at as int, delta as int, n as int);
        }
        if here + by < n {
            proof {
                vstd::arithmetic::div_mod::lemma_small_mod((here + by) as nat, n as nat);
            }
            here + by
        } else {
            proof {
                vstd::arithmetic::div_mod::lemma_small_mod((here + by - n) as nat, n as nat);
                vstd::arithmetic::div_mod::lemma_mod_sub_multiples_vanish(here + by, n as int);
            }
            here + by - n
        }
    } else {
        let by: u128 = (-far) as u128 % n;
        proof {
            vstd::arithmetic::div_mod::lemma_sub_mod_noop(at as int, -far, n as int);
            assert((here - by) % (n as int) == (at + delta) % (n as int));
        }
        if here >= by {
            proof {
                vstd::arithmetic::div_mod::lemma_small_mod((here - by) as nat, n as nat);
            }
            here - by
        } else {
            proof {
                vstd::arithmetic::div_mod::lemma_small_mod((here + n - by) as nat, n as nat);
                vstd::arithmetic::div_mod::lemma_mod_add_multiples_vanish(here - by, n as int);
            }
            here + n - by
        }
    }
}

/// The place `delta` steps along from `at`, stopping at `low` and `high`.
pub open spec fn clamped(at: int, delta: int, low: int, high: int) -> int {
    if at + delta < low {
        low
    } else if at + delta > high {
        high
    } else {
        at + delta
    }
}

/// The place `delta` steps along from `at`, stopping at `low` and `high`.
pub fn walk(at: usize, delta: isize, low: usize, high: usize) -> (r: usize)
    requires
        low <= high,
    ensures
        r == clamped(at as int, delta as int, low as int, high as int),
{
    let to: i128 = at as i128 + delta as i128;
    if to < low as i128 {
        low
    } else if to > high as i128 {
        high
    } else {
        to as usize
    }
}

/// Stepping back undoes stepping on.
pub proof fn stepping_back_returns(at: int, delta: int, n: int)
    requires
        0 <= at < n,
    ensures
        stepped(stepped(at, delta, n), -delta, n) == at,
{
    vstd::arithmetic::div_mod::lemma_add_mod_noop(at + delta, -delta, n);
    vstd::arithmetic::div_mod::lemma_mod_twice(at + delta, n);
    vstd::arithmetic::div_mod::lemma_add_mod_noop((at + delta) % n, -delta, n);
    vstd::arithmetic::div_mod::lemma_small_mod(at as nat, n as nat);
}

/// A step on goes to the next place and from the last one to the first; a step back
/// the other way.
pub proof fn a_step_goes_to_the_next(at: int, n: int)
    requires
        0 <= at < n,
    ensures
        at + 1 < n ==> stepped(at, 1, n) == at + 1,
        at + 1 == n ==> stepped(at, 1, n) == 0,
        at > 0 ==> stepped(at, -1, n) == at - 1,
        at == 0 ==> stepped(at, -1, n) == n - 1,
        stepped(at, 0, n) == at,
{
    vstd::arithmetic::div_mod::lemma_small_mod(at as nat, n as nat);
    if at + 1 < n {
        vstd::arithmetic::div_mod::lemma_small_mod((at + 1) as nat, n as nat);
    } else {
        vstd::arithmetic::div_mod::lemma_mod_self_0(n);
    }
    if at > 0 {
        vstd::arithmetic::div_mod::lemma_small_mod((at - 1) as nat, n as nat);
    } else {
        vstd::arithmetic::div_mod::lemma_small_mod((n - 1) as nat, n as nat);
        vstd::arithmetic::div_mod::lemma_mod_add_multiples_vanish(-1, n);
    }
}

/// A walk goes as far as it was asked to, where that is between its ends, and to the
/// end it would pass where it is not.
pub proof fn a_walk_stops_at_its_ends(at: int, delta: int, low: int, high: int)
    requires
        low <= high,
    ensures
        low <= clamped(at, delta, low, high) <= high,
        low <= at + delta <= high ==> clamped(at, delta, low, high) - at == delta,
        at + delta < low ==> clamped(at, delta, low, high) == low,
        at + delta > high ==> clamped(at, delta, low, high) == high,
{
}

} // verus!
