//! Growth policy of the growable buffer: how a requested element count is
//! rounded to the capacity that is actually allocated.
//!
//! A policy is a single number, the growth step. A step of zero selects
//! geometric growth (capacities are powers of two); any other step selects
//! linear growth (capacities are multiples of the step).

use vstd::arithmetic::div_mod::{
    lemma_fundamental_div_mod, lemma_fundamental_div_mod_converse, lemma_mod_multiples_basic,
};
use vstd::arithmetic::power2::is_pow2;
use vstd::prelude::*;

verus! {

/// The smallest power of two that is not below `n`; 1 for `n == 0`.
pub open spec fn next_power_of_two(n: nat) -> nat
    decreases n,
{
    if n <= 1 {
        1
    } else {
        2 * next_power_of_two((n + 1) / 2)
    }
}

/// The smallest multiple of `step` that is not below `n`.
pub open spec fn next_multiple_of(n: nat, step: nat) -> nat
    recommends
        step > 0,
{
    if n % step == 0 {
        n
    } else {
        (n + step - n % step) as nat
    }
}

/// The capacity that a request for `n` elements is rounded to under the
/// growth step `step`: it may equal `n`.
pub open spec fn spec_new_capacity(step: nat, n: nat) -> nat {
    if step == 0 {
        next_power_of_two(n)
    } else {
        next_multiple_of(n, step)
    }
}

/// The capacity that follows `cap` under the growth step `step`: it is
/// strictly greater than `cap`.
pub open spec fn spec_cap_next(step: nat, cap: nat) -> nat {
    spec_new_capacity(step, cap + 1)
}

proof fn lemma_double_is_pow2(m: int)
    requires
        is_pow2(m),
    ensures
        is_pow2(2 * m),
{
    reveal(is_pow2);
    assert(m >= 1);
    assert((2 * m) % 2 == 0);
    assert((2 * m) / 2 == m);
}

proof fn lemma_pow2_halves(p: int)
    requires
        is_pow2(p),
        p != 1,
    ensures
        p >= 2,
        p % 2 == 0,
        is_pow2(p / 2),
{
    reveal(is_pow2);
}

/// Every power of two is at least one.
pub proof fn lemma_pow2_positive(p: int)
    requires
        is_pow2(p),
    ensures
        p >= 1,
{
    reveal(is_pow2);
}

/// Two distinct powers of two differ by at least a factor of two.
pub proof fn lemma_pow2_gap(a: int, b: int)
    requires
        is_pow2(a),
        is_pow2(b),
        a < b,
    ensures
        2 * a <= b,
    decreases b,
{
    lemma_pow2_positive(a);
    lemma_pow2_halves(b);
    if a != 1 {
        lemma_pow2_halves(a);
        lemma_pow2_gap(a / 2, b / 2);
    }
}

/// Of two powers of two the smaller divides the larger.
pub proof fn lemma_pow2_divides(a: int, b: int)
    requires
        is_pow2(a),
        is_pow2(b),
        a <= b,
    ensures
        b % a == 0,
        b / a >= 1,
        b == a * (b / a),
    decreases b,
{
    lemma_pow2_positive(a);
    if a == b {
        assert(b % a == 0 && b / a == 1) by (nonlinear_arith)
            requires
                a == b,
                a >= 1,
        ;
    } else {
        lemma_pow2_halves(b);
        lemma_pow2_gap(a, b);
        lemma_pow2_divides(a, b / 2);
        let q = (b / 2) / a;
        assert(b == (2 * q) * a + 0 && b == a * (2 * q)) by (nonlinear_arith)
            requires
                b == 2 * (b / 2),
                b / 2 == a * q,
        ;
        lemma_fundamental_div_mod_converse(b, a, 2 * q, 0);
    }
}

/// `next_power_of_two(n)` is a power of two, is not below `n`, and is below
/// `2 * n` unless `n` is zero.
pub proof fn lemma_next_power_of_two_bounds(n: nat)
    ensures
        is_pow2(next_power_of_two(n) as int),
        next_power_of_two(n) >= n,
        next_power_of_two(n) >= 1,
        n >= 1 ==> next_power_of_two(n) < 2 * n,
    decreases n,
{
    if n <= 1 {
        reveal(is_pow2);
    } else {
        lemma_next_power_of_two_bounds((n + 1) / 2);
        lemma_double_is_pow2(next_power_of_two((n + 1) / 2) as int);
    }
}

/// No power of two that is at least `n` is smaller than
/// `next_power_of_two(n)`.
pub proof fn lemma_next_power_of_two_least(n: nat, p: int)
    requires
        is_pow2(p),
        p >= n,
    ensures
        next_power_of_two(n) <= p,
    decreases n,
{
    lemma_pow2_positive(p);
    if n >= 2 {
        lemma_pow2_halves(p);
        lemma_next_power_of_two_least((n + 1) / 2, p / 2);
    }
}

/// A power of two that is at least `n`, and whose half is below `n`, is
/// `next_power_of_two(n)`.
pub proof fn lemma_next_power_of_two_unique(n: nat, p: int)
    requires
        is_pow2(p),
        p >= n,
        p == 1 || p / 2 < n,
    ensures
        p == next_power_of_two(n),
{
    let r = next_power_of_two(n) as int;
    lemma_next_power_of_two_bounds(n);
    lemma_next_power_of_two_least(n, p);
    if r < p {
        lemma_pow2_gap(r, p);
    }
}

/// Two distinct multiples of `step` are at least `step` apart.
proof fn lemma_multiples_gap(a: int, b: int, step: int)
    requires
        step > 0,
        0 <= a < b,
        a % step == 0,
        b % step == 0,
    ensures
        a + step <= b,
{
    lemma_fundamental_div_mod(a, step);
    lemma_fundamental_div_mod(b, step);
    let qa = a / step;
    let qb = b / step;
    assert(qa < qb) by (nonlinear_arith)
        requires
            step > 0,
            a == step * qa,
            b == step * qb,
            a < b,
    ;
    assert(step * qa + step <= step * qb) by (nonlinear_arith)
        requires
            step > 0,
            qa < qb,
    ;
}

/// `next_multiple_of(n, step)` is a multiple of `step`, is not below `n`,
/// and is below `n + step`.
pub proof fn lemma_next_multiple_of_bounds(n: nat, step: nat)
    requires
        step > 0,
    ensures
        next_multiple_of(n, step) % step == 0,
        next_multiple_of(n, step) >= n,
        next_multiple_of(n, step) < n + step,
{
    let s = step as int;
    let k = n as int;
    if k % s != 0 {
        lemma_fundamental_div_mod(k, s);
        let q = k / s;
        assert(k + s - k % s == s * (q + 1)) by (nonlinear_arith)
            requires
                k == s * q + k % s,
        ;
        lemma_mod_multiples_basic(q + 1, s);
        assert(((q + 1) * s) % s == 0);
        assert((q + 1) * s == s * (q + 1)) by (nonlinear_arith);
    }
}

/// No multiple of `step` that is at least `n` is smaller than
/// `next_multiple_of(n, step)`.
pub proof fn lemma_next_multiple_of_least(n: nat, step: nat, m: nat)
    requires
        step > 0,
        m >= n,
        m % step == 0,
    ensures
        next_multiple_of(n, step) <= m,
{
    lemma_next_multiple_of_bounds(n, step);
    let r = next_multiple_of(n, step);
    if m < r {
        lemma_multiples_gap(m as int, r as int, step as int);
    }
}

/// The rounded capacity is never below the request, and under geometric
/// growth it is at least one.
pub proof fn lemma_new_capacity_covers(step: nat, n: nat)
    ensures
        spec_new_capacity(step, n) >= n,
        step == 0 ==> spec_new_capacity(step, n) >= 1,
{
    if step == 0 {
        lemma_next_power_of_two_bounds(n);
    } else {
        lemma_next_multiple_of_bounds(n, step);
    }
}

/// The rounded capacity is the smallest value of the policy's shape that
/// covers the request: the smallest power of two under geometric growth, and
/// the smallest multiple of the step otherwise.
pub proof fn lemma_new_capacity_least(step: nat, n: nat, c: nat)
    requires
        c >= n,
        if step == 0 {
            is_pow2(c as int)
        } else {
            c % step == 0
        },
    ensures
        spec_new_capacity(step, n) >= n,
        spec_new_capacity(step, n) <= c,
        if step == 0 {
            is_pow2(spec_new_capacity(step, n) as int)
        } else {
            spec_new_capacity(step, n) % step == 0
        },
{
    if step == 0 {
        lemma_next_power_of_two_bounds(n);
        lemma_next_power_of_two_least(n, c as int);
    } else {
        lemma_next_multiple_of_bounds(n, step);
        lemma_next_multiple_of_least(n, step, c);
    }
}

/// Expanding makes progress: the capacity that follows `cap` is strictly
/// greater than `cap`.
pub proof fn lemma_cap_next_grows(step: nat, cap: nat)
    ensures
        spec_cap_next(step, cap) > cap,
{
    lemma_new_capacity_covers(step, cap + 1);
}

/// Computes `next_power_of_two(n)`, or `None` where it does not fit a
/// `usize`.
pub fn checked_next_power_of_two(n: usize) -> (r: Option<usize>)
    ensures
        r == (if next_power_of_two(n as nat) <= usize::MAX {
            Some(next_power_of_two(n as nat) as usize)
        } else {
            None
        }),
{
    let mut p: usize = 1;
    proof {
        reveal(is_pow2);
    }
    while p < n
        invariant
            is_pow2(p as int),
            p >= 1,
            p == 1 || p / 2 < n,
        decreases usize::MAX - p,
    {
        if p > usize::MAX / 2 {
            proof {
                lemma_next_power_of_two_bounds(n as nat);
                lemma_pow2_gap(p as int, next_power_of_two(n as nat) as int);
            }
            return None;
        }
        proof {
            lemma_double_is_pow2(p as int);
        }
        p = p * 2;
    }
    proof {
        lemma_next_power_of_two_unique(n as nat, p as int);
    }
    Some(p)
}

/// Computes `next_multiple_of(n, step)`, or `None` where it does not fit a
/// `usize`.
pub fn checked_next_multiple_of(n: usize, step: usize) -> (r: Option<usize>)
    requires
        step > 0,
    ensures
        r == (if next_multiple_of(n as nat, step as nat) <= usize::MAX {
            Some(next_multiple_of(n as nat, step as nat) as usize)
        } else {
            None
        }),
{
    let rem: usize = n % step;
    if rem == 0 {
        Some(n)
    } else {
        n.checked_add(step - rem)
    }
}

/// Computes `spec_new_capacity(step, n)`, or `None` where it does not fit a
/// `usize`.
pub fn checked_new_capacity(step: usize, n: usize) -> (r: Option<usize>)
    ensures
        r == (if spec_new_capacity(step as nat, n as nat) <= usize::MAX {
            Some(spec_new_capacity(step as nat, n as nat) as usize)
        } else {
            None
        }),
{
    if step == 0 {
        checked_next_power_of_two(n)
    } else {
        checked_next_multiple_of(n, step)
    }
}

/// Computes `spec_cap_next(step, cap)`, or `None` where it does not fit a
/// `usize`.
pub fn checked_cap_next(step: usize, cap: usize) -> (r: Option<usize>)
    ensures
        r == (if spec_cap_next(step as nat, cap as nat) <= usize::MAX {
            Some(spec_cap_next(step as nat, cap as nat) as usize)
        } else {
            None
        }),
{
    if cap == usize::MAX {
        proof {
            lemma_cap_next_grows(step as nat, cap as nat);
        }
        None
    } else {
        checked_new_capacity(step, cap + 1)
    }
}

} // verus!
