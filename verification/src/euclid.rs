//! The Euclidean algorithm: a mathematical definition of the greatest
//! common divisor, the executable computation, and the algebraic laws
//! that callers rely on.

use crate::divisibility::divides;
use crate::divisibility::lemma_divides_antisymmetric;
use crate::divisibility::lemma_divides_le;
use crate::divisibility::lemma_divides_mod;
use crate::divisibility::lemma_divides_mod_converse;
use crate::divisibility::lemma_divides_refl;
use crate::divisibility::lemma_divides_transitive;
use crate::divisibility::lemma_divides_zero;
use vstd::arithmetic::div_mod::lemma_mod_multiples_basic;
use vstd::arithmetic::div_mod::lemma_mod_self_0;
use vstd::prelude::*;

verus! {

/// The greatest common divisor of two natural numbers, defined by the
/// Euclidean recurrence. `spec_gcd(a, 0) == a`, so the definition is
/// total; the laws below speak of positive arguments.
pub open spec fn spec_gcd(a: nat, b: nat) -> nat
    decreases b,
{
    if b == 0 {
        a
    } else {
        spec_gcd(b, a % b)
    }
}

/// The gcd divides both of its arguments, and is positive as soon as
/// one of them is.
pub proof fn lemma_gcd_divides_both(a: nat, b: nat)
    requires
        1 <= a + b,
    ensures
        1 <= spec_gcd(a, b),
        divides(spec_gcd(a, b), a),
        divides(spec_gcd(a, b), b),
    decreases b,
{
    if b == 0 {
        lemma_divides_refl(a);
        lemma_divides_zero(a);
    } else {
        lemma_gcd_divides_both(b, a % b);
        lemma_divides_mod_converse(spec_gcd(b, a % b), a, b);
    }
}

/// Every common divisor of `a` and `b` divides their gcd.
pub proof fn lemma_gcd_greatest(a: nat, b: nat, d: nat)
    requires
        1 <= d,
        divides(d, a),
        divides(d, b),
    ensures
        divides(d, spec_gcd(a, b)),
    decreases b,
{
    if b != 0 {
        lemma_divides_mod(d, a, b);
        lemma_gcd_greatest(b, a % b, d);
    }
}

/// The gcd of two positive numbers does not depend on their order.
pub proof fn lemma_gcd_commutes(a: nat, b: nat)
    requires
        1 <= a,
        1 <= b,
    ensures
        spec_gcd(a, b) == spec_gcd(b, a),
{
    lemma_gcd_divides_both(a, b);
    lemma_gcd_divides_both(b, a);
    lemma_gcd_greatest(b, a, spec_gcd(a, b));
    lemma_gcd_greatest(a, b, spec_gcd(b, a));
    lemma_divides_antisymmetric(spec_gcd(a, b), spec_gcd(b, a));
}

/// Grouping does not matter when combining three positive numbers
/// with the gcd.
pub proof fn lemma_gcd_associative(a: nat, b: nat, c: nat)
    requires
        1 <= a,
        1 <= b,
        1 <= c,
    ensures
        spec_gcd(spec_gcd(a, b), c) == spec_gcd(a, spec_gcd(b, c)),
{
    let ab = spec_gcd(a, b);
    let bc = spec_gcd(b, c);
    let left = spec_gcd(ab, c);
    let right = spec_gcd(a, bc);
    lemma_gcd_divides_both(a, b);
    lemma_gcd_divides_both(b, c);
    lemma_gcd_divides_both(ab, c);
    lemma_gcd_divides_both(a, bc);
    lemma_divides_transitive(left, ab, a);
    lemma_divides_transitive(left, ab, b);
    lemma_gcd_greatest(b, c, left);
    lemma_gcd_greatest(a, bc, left);
    lemma_divides_transitive(right, bc, b);
    lemma_divides_transitive(right, bc, c);
    lemma_gcd_greatest(a, b, right);
    lemma_gcd_greatest(ab, c, right);
    lemma_divides_antisymmetric(left, right);
}

/// The gcd of a positive number with itself is that number.
pub proof fn lemma_gcd_self(a: nat)
    requires
        1 <= a,
    ensures
        spec_gcd(a, a) == a,
{
    lemma_mod_self_0(a as int);
    assert(spec_gcd(a, a) == spec_gcd(a, 0));
}

/// The gcd of any positive number with one is one.
pub proof fn lemma_gcd_one(a: nat)
    requires
        1 <= a,
    ensures
        spec_gcd(a, 1) == 1,
{
    lemma_mod_multiples_basic(a as int, 1);
    assert(a % 1 == 0);
    assert(spec_gcd(a, 1) == spec_gcd(1, 0));
}

/// The gcd of two positive numbers divides both of them, and every
/// common divisor is no larger than it: it is the greatest common
/// divisor in the literal sense.
pub proof fn lemma_gcd_is_greatest_common_divisor(a: nat, b: nat)
    requires
        1 <= a,
        1 <= b,
    ensures
        1 <= spec_gcd(a, b),
        divides(spec_gcd(a, b), a),
        divides(spec_gcd(a, b), b),
        forall|d: nat| 1 <= d && divides(d, a) && #[trigger] divides(d, b) ==> d <= spec_gcd(a, b),
{
    lemma_gcd_divides_both(a, b);
    assert forall|d: nat|
        1 <= d && divides(d, a) && #[trigger] divides(d, b) implies d <= spec_gcd(a, b) by {
        lemma_gcd_greatest(a, b, d);
        lemma_divides_le(d, spec_gcd(a, b));
    }
}

/// Compute the greatest common divisor of two positive numbers by
/// repeated remainders, ordering the pair before each step so that
/// the larger operand is reduced modulo the smaller.
pub fn gcd(n: u64, m: u64) -> (d: u64)
    requires
        n != 0,
        m != 0,
    ensures
        d as nat == spec_gcd(n as nat, m as nat),
{
    let mut a = n;
    let mut b = m;
    while b != 0
        invariant
            1 <= a,
            spec_gcd(a as nat, b as nat) == spec_gcd(n as nat, m as nat),
        decreases b,
    {
        if b < a {
            proof {
                lemma_gcd_commutes(a as nat, b as nat);
            }
            let t = b;
            b = a;
            a = t;
        }
        proof {
            lemma_gcd_commutes(a as nat, b as nat);
        }
        b = b % a;
    }
    a
}

} // verus!
