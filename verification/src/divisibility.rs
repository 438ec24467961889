//! Divisibility of natural numbers, with the facts about remainders
//! that the Euclidean algorithm rests on.

use vstd::arithmetic::div_mod::lemma_add_mod_noop;
use vstd::arithmetic::div_mod::lemma_fundamental_div_mod;
use vstd::arithmetic::div_mod::lemma_mod_self_0;
use vstd::arithmetic::div_mod::lemma_mul_mod_noop_left;
use vstd::arithmetic::div_mod::lemma_small_mod;
use vstd::arithmetic::div_mod::lemma_sub_mod_noop;
use vstd::prelude::*;

verus! {

/// `d` divides `n`: dividing `n` by `d` leaves no remainder.
pub open spec fn divides(d: nat, n: nat) -> bool
    recommends
        1 <= d,
{
    n % d == 0
}

/// Every positive number divides itself.
pub proof fn lemma_divides_refl(n: nat)
    requires
        1 <= n,
    ensures
        divides(n, n),
{
    lemma_mod_self_0(n as int);
}

/// Every positive number divides zero.
pub proof fn lemma_divides_zero(d: nat)
    requires
        1 <= d,
    ensures
        divides(d, 0),
{
    lemma_small_mod(0, d);
}

/// A divisor of a positive number is no larger than that number.
pub proof fn lemma_divides_le(d: nat, n: nat)
    requires
        1 <= d,
        1 <= n,
        divides(d, n),
    ensures
        d <= n,
{
    if n < d {
        lemma_small_mod(n, d);
    }
}

/// Two positive numbers that divide each other are equal.
pub proof fn lemma_divides_antisymmetric(a: nat, b: nat)
    requires
        1 <= a,
        1 <= b,
        divides(a, b),
        divides(b, a),
    ensures
        a == b,
{
    lemma_divides_le(a, b);
    lemma_divides_le(b, a);
}

/// Divisibility is transitive: a divisor of `m` divides every
/// multiple of `m`.
pub proof fn lemma_divides_transitive(d: nat, m: nat, n: nat)
    requires
        1 <= d,
        1 <= m,
        divides(d, m),
        divides(m, n),
    ensures
        divides(d, n),
{
    lemma_fundamental_div_mod(n as int, m as int);
    let q = n as int / m as int;
    assert(n as int == m as int * q);
    lemma_mul_mod_noop_left(m as int, q, d as int);
    lemma_small_mod(0, d);
}

/// A common divisor of `a` and `b` also divides the remainder `a % b`.
pub proof fn lemma_divides_mod(d: nat, a: nat, b: nat)
    requires
        1 <= d,
        1 <= b,
        divides(d, a),
        divides(d, b),
    ensures
        divides(d, a % b),
{
    lemma_fundamental_div_mod(a as int, b as int);
    let q = a as int / b as int;
    assert((a % b) as int == a as int - b as int * q);
    lemma_mul_mod_noop_left(b as int, q, d as int);
    lemma_small_mod(0, d);
    assert((b as int * q) % d as int == 0);
    lemma_sub_mod_noop(a as int, b as int * q, d as int);
}

/// A divisor of `b` and of the remainder `a % b` also divides `a`.
pub proof fn lemma_divides_mod_converse(d: nat, a: nat, b: nat)
    requires
        1 <= d,
        1 <= b,
        divides(d, b),
        divides(d, a % b),
    ensures
        divides(d, a),
{
    lemma_fundamental_div_mod(a as int, b as int);
    let q = a as int / b as int;
    assert(a as int == b as int * q + (a % b) as int);
    lemma_mul_mod_noop_left(b as int, q, d as int);
    lemma_small_mod(0, d);
    assert((b as int * q) % d as int == 0);
    lemma_add_mod_noop(b as int * q, (a % b) as int, d as int);
}

} // verus!
