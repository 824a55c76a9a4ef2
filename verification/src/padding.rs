//! Trace lengths: powers of two, and the length a trace is padded to.

use vstd::prelude::*;
use vstd::arithmetic::power2::is_pow2;

verus! {

/// The first of `t`, `2t`, `4t`, ... that is at least `n`.
pub open spec fn doubled_until(t: nat, n: nat) -> nat
    decreases
            (if t < n {
                n - t
            } else {
                0
            }),
{
    if t == 0 || t >= n {
        t
    } else {
        doubled_until(2 * t, n)
    }
}

/// The length that a trace of `n` rows is padded to: the least power of two
/// that is at least `n`.
pub open spec fn padded_len(n: nat) -> nat {
    doubled_until(1, n)
}

/// Twice a power of two is a power of two.
pub proof fn lemma_pow2_double(t: nat)
    requires
        is_pow2(t as int),
    ensures
        is_pow2(2 * t as int),
{
    reveal(is_pow2);
    assert((2 * t) / 2 == t);
}

/// Half of a power of two above one is a power of two.
pub proof fn lemma_pow2_half(t: nat)
    requires
        is_pow2(t as int),
        t > 1,
    ensures
        t % 2 == 0,
        is_pow2((t / 2) as int),
{
    reveal(is_pow2);
}

/// Between a power of two and its double lies no power of two.
pub proof fn lemma_pow2_gap(t: nat, n: nat)
    requires
        is_pow2(t as int),
        is_pow2(n as int),
        t < n,
    ensures
        2 * t <= n,
    decreases n,
{
    reveal(is_pow2);
    if t > n / 2 {
        if t >= 2 {
            lemma_pow2_half(t);
            lemma_pow2_half(n);
            lemma_pow2_gap(t / 2, n / 2);
        }
    }
}

/// Doubling from a power of two ends on a power of two that is at least `n`
/// and at most any power of two that is at least both.
pub proof fn lemma_doubled_until(t: nat, n: nat)
    requires
        is_pow2(t as int),
    ensures
        is_pow2(doubled_until(t, n) as int),
        doubled_until(t, n) >= n,
        doubled_until(t, n) >= t,
        forall|p: nat| is_pow2(p as int) && p >= n && p >= t ==> doubled_until(t, n) <= p,
    decreases
            (if t < n {
                n - t
            } else {
                0
            }),
{
    reveal(is_pow2);
    if t >= n {
    } else {
        lemma_pow2_double(t);
        lemma_doubled_until(2 * t, n);
        assert forall|p: nat| is_pow2(p as int) && p >= n && p >= t implies doubled_until(t, n)
            <= p by {
            lemma_pow2_gap(t, p);
        }
    }
}

/// The padded length is the least power of two that is at least `n`; a
/// power of two is its own padded length.
pub proof fn lemma_padded_len(n: nat)
    ensures
        is_pow2(padded_len(n) as int),
        padded_len(n) >= n,
        padded_len(n) >= 1,
        forall|p: nat| is_pow2(p as int) && p >= n ==> padded_len(n) <= p,
        is_pow2(n as int) ==> padded_len(n) == n,
{
    reveal(is_pow2);
    assert(is_pow2(1));
    lemma_doubled_until(1, n);
    assert forall|p: nat| is_pow2(p as int) && p >= n implies padded_len(n) <= p by {
        assert(p >= 1);
    }
}

/// Padding a padded length changes nothing.
pub proof fn lemma_padded_len_idempotent(n: nat)
    ensures
        padded_len(padded_len(n)) == padded_len(n),
{
    lemma_padded_len(n);
    lemma_padded_len(padded_len(n));
}

/// Whether `n` is a power of two.
pub fn is_power_of_two(n: usize) -> (b: bool)
    ensures
        b == is_pow2(n as int),
{
    let mut t: usize = 1;
    proof {
        reveal(is_pow2);
        assert(is_pow2(1));
    }
    while t < n && t <= usize::MAX / 2
        invariant
            t >= 1,
            is_pow2(t as int),
            t == 1 || (t / 2) < n,
        decreases usize::MAX - t,
    {
        proof {
            lemma_pow2_double(t as nat);
        }
        t = t * 2;
    }
    proof {
        if is_pow2(n as int) && t != n {
            if t < n {
                lemma_pow2_gap(t as nat, n as nat);
            } else {
                assert(n >= 1) by {
                    reveal(is_pow2);
                }
                lemma_pow2_half(t as nat);
                lemma_pow2_gap((t / 2) as nat, n as nat);
            }
        }
    }
    t == n
}

/// The least power of two that is at least `n`, where the machine can
/// hold it.
pub fn next_power_of_two(n: usize) -> (r: usize)
    requires
        padded_len(n as nat) <= usize::MAX,
    ensures
        r == padded_len(n as nat),
{
    let mut t: usize = 1;
    proof {
        reveal(is_pow2);
        assert(is_pow2(1));
    }
    while t < n
        invariant
            t >= 1,
            is_pow2(t as int),
            padded_len(n as nat) <= usize::MAX,
            doubled_until(t as nat, n as nat) == padded_len(n as nat),
        decreases usize::MAX - t,
    {
        proof {
            lemma_pow2_double(t as nat);
            lemma_doubled_until((2 * t) as nat, n as nat);
        }
        t = t * 2;
    }
    t
}

} // verus!
