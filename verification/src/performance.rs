//! Statistics of the interactive performance scenario.

use vstd::prelude::*;
use vstd::multiset::Multiset;

verus! {

broadcast use vstd::seq_lib::group_to_multiset_ensures, vstd::multiset::group_multiset_axioms;

/// Number of samples taken for each measured operation.
pub const SAMPLE_COUNT: usize = 100;

/// Whether `s` is in ascending order.
pub open spec fn ascending(s: Seq<u64>) -> bool {
    forall|i: int, j: int| 0 <= i < j < s.len() ==> s[i] <= s[j]
}

fn insertion_point(sorted: &Vec<u64>, x: u64) -> (k: usize)
    requires
        ascending(sorted@),
    ensures
        k <= sorted@.len(),
        forall|i: int| 0 <= i < k ==> sorted@[i] <= x,
        forall|i: int| k <= i < sorted@.len() ==> x < sorted@[i],
{
    let mut k: usize = 0;
    while k < sorted.len() && sorted[k] <= x
        invariant
            k <= sorted@.len(),
            ascending(sorted@),
            forall|i: int| 0 <= i < k ==> sorted@[i] <= x,
        decreases sorted@.len() - k,
    {
        k += 1;
    }
    k
}

/// Sorts samples in ascending order.
pub fn sort_samples(samples: &mut Vec<u64>)
    ensures
        ascending(final(samples)@),
        final(samples)@.to_multiset() == old(samples)@.to_multiset(),
{
    let ghost original = samples@;
    let mut rest: Vec<u64> = Vec::new();
    rest.append(samples);
    let mut sorted: Vec<u64> = Vec::new();
    assert(sorted@.to_multiset() =~= Multiset::<u64>::empty());
    while rest.len() > 0
        invariant
            samples@ == Seq::<u64>::empty(),
            ascending(sorted@),
            sorted@.to_multiset().add(rest@.to_multiset()) == original.to_multiset(),
        decreases rest@.len(),
    {
        let ghost before_rest = rest@;
        let ghost before_sorted = sorted@;
        let x = rest.remove(0);
        let k = insertion_point(&sorted, x);
        sorted.insert(k, x);
        proof {
            assert(rest@ == before_rest.remove(0));
            assert(sorted@ == before_sorted.insert(k as int, x));
            vstd::seq_lib::to_multiset_remove(before_rest, 0);
            vstd::seq_lib::to_multiset_insert(before_sorted, k as int, x);
            assert(sorted@.to_multiset().add(rest@.to_multiset()) =~= original.to_multiset());
            assert forall|i: int, j: int| 0 <= i < j < sorted@.len() implies sorted@[i] <= sorted@[j] by {
                if j < k {
                    assert(sorted@[i] == before_sorted[i] && sorted@[j] == before_sorted[j]);
                } else if j == k {
                    assert(sorted@[i] == before_sorted[i]);
                } else if i < k {
                    assert(sorted@[i] == before_sorted[i] && sorted@[j] == before_sorted[j - 1]);
                } else if i == k {
                    assert(sorted@[j] == before_sorted[j - 1]);
                } else {
                    assert(sorted@[i] == before_sorted[i - 1] && sorted@[j] == before_sorted[j - 1]);
                }
            }
        }
    }
    assert(rest@.to_multiset() =~= Multiset::<u64>::empty());
    let ghost result = sorted@;
    samples.append(&mut sorted);
    assert(samples@ =~= result);
}

/// Index of the 95th percentile among `n` ascending samples: the smallest
/// rank that covers 95 % of them.
pub open spec fn percentile_index(n: nat) -> int {
    (n * 95 + 99) / 100 - 1
}

/// The 95th percentile of the samples, which are left in ascending order.
pub fn percentile_95(samples: &mut Vec<u64>) -> (r: u64)
    requires
        old(samples)@.len() >= 1,
        old(samples)@.len() <= usize::MAX / 100,
    ensures
        ascending(final(samples)@),
        final(samples)@.to_multiset() == old(samples)@.to_multiset(),
        0 <= percentile_index(old(samples)@.len()) < final(samples)@.len(),
        r == final(samples)@[percentile_index(old(samples)@.len())],
{
    sort_samples(samples);
    proof {
        vstd::seq_lib::to_multiset_len(old(samples)@);
        vstd::seq_lib::to_multiset_len(samples@);
    }
    let n = samples.len();
    let index = (n * 95 + 99) / 100 - 1;
    assert(index < n) by (nonlinear_arith)
        requires
            n >= 1,
            index == (n * 95 + 99) / 100 - 1,
    ;
    samples[index]
}

} // verus!
