//! Reducing a sequence of positive numbers to a single greatest
//! common divisor by a left-to-right fold, and the proof that the
//! result depends only on the multiset of values, not on their order.

use crate::euclid::gcd;
use crate::euclid::lemma_gcd_associative;
use crate::euclid::lemma_gcd_commutes;
use crate::euclid::lemma_gcd_divides_both;
use crate::euclid::spec_gcd;
use vstd::prelude::*;
use vstd::seq_lib::group_to_multiset_ensures;

verus! {

/// Every element of the sequence is non-zero.
pub open spec fn all_positive(s: Seq<u64>) -> bool {
    forall|i: int| 0 <= i < s.len() ==> 1 <= #[trigger] s[i]
}

/// The left-to-right gcd fold of a sequence: the first element is the
/// initial accumulator, and each further element is combined into it
/// with the gcd.
pub open spec fn spec_gcd_seq(s: Seq<u64>) -> nat
    recommends
        1 <= s.len(),
    decreases s.len(),
{
    if s.len() == 0 {
        0
    } else if s.len() == 1 {
        s[0] as nat
    } else {
        spec_gcd(spec_gcd_seq(s.drop_last()), s.last() as nat)
    }
}

/// The fold of a non-empty sequence of positive numbers is positive.
pub proof fn lemma_gcd_seq_pos(s: Seq<u64>)
    requires
        1 <= s.len(),
        all_positive(s),
    ensures
        1 <= spec_gcd_seq(s),
    decreases s.len(),
{
    if s.len() > 1 {
        lemma_gcd_seq_pos(s.drop_last());
        lemma_gcd_divides_both(spec_gcd_seq(s.drop_last()), s.last() as nat);
    }
}

/// Combining with `u` and then with `w` gives the same result as
/// combining with `w` and then with `u`.
proof fn lemma_gcd_right_swap(x: nat, u: nat, w: nat)
    requires
        1 <= x,
        1 <= u,
        1 <= w,
    ensures
        spec_gcd(spec_gcd(x, u), w) == spec_gcd(spec_gcd(x, w), u),
{
    lemma_gcd_associative(x, u, w);
    lemma_gcd_commutes(u, w);
    lemma_gcd_associative(x, w, u);
}

/// Any one element can be taken out of the fold and combined last:
/// folding `s` equals folding `s` without its `i`-th element and then
/// combining with that element.
pub proof fn lemma_gcd_seq_remove(s: Seq<u64>, i: int)
    requires
        2 <= s.len(),
        all_positive(s),
        0 <= i < s.len(),
    ensures
        spec_gcd_seq(s) == spec_gcd(spec_gcd_seq(s.remove(i)), s[i] as nat),
    decreases s.len(),
{
    let s0 = s.drop_last();
    let x = s.last();
    if i == s.len() - 1 {
        assert(s.remove(i) =~= s0);
    } else if s.len() == 2 {
        assert(s.remove(0) =~= seq![s[1]]);
        assert(s0 =~= seq![s[0]]);
        lemma_gcd_commutes(s[0] as nat, s[1] as nat);
    } else {
        assert(all_positive(s0));
        lemma_gcd_seq_remove(s0, i);
        let rest = s0.remove(i);
        assert(1 <= rest.len());
        assert(all_positive(rest)) by {
            assert(forall|j: int| 0 <= j < rest.len() ==> rest[j] == s0[if j < i {
                j
            } else {
                j + 1
            }]);
        }
        lemma_gcd_seq_pos(rest);
        lemma_gcd_right_swap(spec_gcd_seq(rest), s0[i] as nat, x as nat);
        assert(s.remove(i) =~= rest.push(x));
        assert(s.remove(i).drop_last() =~= rest);
        assert(spec_gcd_seq(s.remove(i)) == spec_gcd(spec_gcd_seq(rest), x as nat));
    }
}

/// Folding the gcd is order-independent: two sequences of positive
/// numbers that hold the same multiset of values fold to the same
/// greatest common divisor.
pub proof fn lemma_gcd_seq_permutation(s: Seq<u64>, t: Seq<u64>)
    requires
        1 <= s.len(),
        all_positive(s),
        t.to_multiset() == s.to_multiset(),
    ensures
        spec_gcd_seq(t) == spec_gcd_seq(s),
    decreases s.len(),
{
    broadcast use group_to_multiset_ensures;

    vstd::seq_lib::to_multiset_len(s);
    vstd::seq_lib::to_multiset_len(t);
    assert(t.len() == s.len());
    if s.len() == 1 {
        assert(t.to_multiset().count(t[0]) > 0);
        assert(s.contains(t[0]));
        assert(t[0] == s[0]);
    } else {
        let x = t.last();
        assert(t.contains(x));
        assert(t.to_multiset().count(x) > 0);
        assert(s.contains(x));
        let i = choose|i: int| 0 <= i < s.len() && s[i] == x;
        let s1 = s.remove(i);
        assert(t.drop_last() =~= t.remove(t.len() - 1));
        assert(t.drop_last().to_multiset() == t.to_multiset().remove(x));
        assert(s1.to_multiset() == s.to_multiset().remove(x));
        assert(all_positive(s1)) by {
            assert(forall|j: int| 0 <= j < s1.len() ==> s1[j] == s[if j < i {
                j
            } else {
                j + 1
            }]);
        }
        lemma_gcd_seq_permutation(s1, t.drop_last());
        lemma_gcd_seq_remove(s, i);
    }
}

/// Fold a non-empty vector of positive numbers to its greatest common
/// divisor, left to right.
pub fn gcd_reduce(numbers: &Vec<u64>) -> (d: u64)
    requires
        1 <= numbers@.len(),
        all_positive(numbers@),
    ensures
        d as nat == spec_gcd_seq(numbers@),
{
    let mut d = numbers[0];
    let mut i: usize = 1;
    assert(numbers@.take(1) =~= seq![numbers@[0]]);
    while i < numbers.len()
        invariant
            1 <= i <= numbers@.len(),
            all_positive(numbers@),
            1 <= d,
            d as nat == spec_gcd_seq(numbers@.take(i as int)),
        decreases numbers@.len() - i,
    {
        proof {
            lemma_gcd_divides_both(d as nat, numbers@[i as int] as nat);
            assert(numbers@.take(i as int + 1).drop_last() =~= numbers@.take(i as int));
            assert(numbers@.take(i as int + 1).last() == numbers@[i as int]);
        }
        d = gcd(d, numbers[i]);
        i = i + 1;
    }
    proof {
        assert(numbers@.take(numbers@.len() as int) =~= numbers@);
    }
    d
}

} // verus!
