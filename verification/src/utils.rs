//! Random choice of a few pin indexes.
use std::collections::HashSet;
use vstd::prelude::*;

use crate::random::{shuffle, Shuffle};

verus! {

broadcast use vstd::std_specs::hash::group_hash_axioms;

/// The indexes below `m` that `exclude` does not hold, in increasing order.
pub open spec fn candidate_indexes(m: nat, exclude: Seq<usize>) -> Seq<usize>
    decreases m,
{
    if m == 0 {
        Seq::empty()
    } else {
        let prev = candidate_indexes((m - 1) as nat, exclude);
        if exclude.contains((m - 1) as usize) {
            prev
        } else {
            prev.push((m - 1) as usize)
        }
    }
}

/// The smaller of two numbers.
pub open spec fn min_nat(a: nat, b: nat) -> nat {
    if a <= b {
        a
    } else {
        b
    }
}

/// The candidates below `m` are exactly the indexes below `m` that are not
/// excluded, each once.
pub proof fn lemma_candidate_indexes(m: nat, exclude: Seq<usize>)
    requires
        m <= usize::MAX + 1,
    ensures
        candidate_indexes(m, exclude).no_duplicates(),
        forall|x: usize|
            #[trigger] candidate_indexes(m, exclude).contains(x) <==> (x < m && !exclude.contains(x)),
    decreases m,
{
    if m > 0 {
        lemma_candidate_indexes((m - 1) as nat, exclude);
        let prev = candidate_indexes((m - 1) as nat, exclude);
        let last = (m - 1) as usize;
        if !exclude.contains(last) {
            assert(!prev.contains(last));
            assert forall|i: int, j: int|
                0 <= i < prev.push(last).len() && 0 <= j < prev.push(last).len() && i != j implies
                prev.push(last)[i] != prev.push(last)[j] by {
                if i < prev.len() && j < prev.len() {
                } else if i < prev.len() {
                    assert(prev.contains(prev[i]));
                } else {
                    assert(prev.contains(prev[j]));
                }
            }
            assert forall|x: usize| #[trigger] prev.push(last).contains(x) <==> (x < m
                && !exclude.contains(x)) by {
                if prev.push(last).contains(x) {
                    let k = choose|k: int| 0 <= k < prev.push(last).len() && prev.push(last)[k] == x;
                    if k < prev.len() {
                        assert(prev.contains(x));
                    }
                }
                if x < m && !exclude.contains(x) {
                    if x == last {
                        assert(prev.push(last)[prev.len() as int] == x);
                    } else {
                        assert(prev.contains(x));
                        let k = choose|k: int| 0 <= k < prev.len() && prev[k] == x;
                        assert(prev.push(last)[k] == x);
                    }
                }
            }
        }
    }
}

/// With nothing excluded, every index below `m` is a candidate.
pub proof fn lemma_no_exclusions(m: nat)
    ensures
        candidate_indexes(m, Seq::empty()).len() == m,
    decreases m,
{
    if m > 0 {
        lemma_no_exclusions((m - 1) as nat);
    }
}

/// Whether `v` holds `x`.
fn slice_contains(v: &[usize], x: usize) -> (found: bool)
    ensures
        found == v@.contains(x),
{
    let mut i: usize = 0;
    while i < v.len()
        invariant
            i <= v@.len(),
            forall|j: int| 0 <= j < i ==> v@[j] != x,
        decreases v@.len() - i,
    {
        if v[i] == x {
            assert(v@[i as int] == x);
            return true;
        }
        i += 1;
    }
    false
}

/// The indexes below `m` that `exclude` does not hold, in increasing order.
pub fn candidates(m: usize, exclude: &[usize]) -> (indices: Vec<usize>)
    ensures
        indices@ == candidate_indexes(m as nat, exclude@),
{
    let mut indices: Vec<usize> = Vec::new();
    let mut i: usize = 0;
    while i < m
        invariant
            i <= m,
            indices@ == candidate_indexes(i as nat, exclude@),
        decreases m - i,
    {
        if !slice_contains(exclude, i) {
            indices.push(i);
        }
        i += 1;
    }
    indices
}

/// The set of the first `n` elements of `indices` (all of them if there are fewer).
pub fn first_indexes(indices: &Vec<usize>, n: usize) -> (picked: HashSet<usize>)
    ensures
        picked@ == indices@.take(min_nat(n as nat, indices@.len()) as int).to_set(),
{
    let count = if n <= indices.len() {
        n
    } else {
        indices.len()
    };
    let mut picked: HashSet<usize> = HashSet::new();
    let mut i: usize = 0;
    while i < count
        invariant
            i <= count,
            count <= indices@.len(),
            count == min_nat(n as nat, indices@.len()),
            picked@ == indices@.take(i as int).to_set(),
        decreases count - i,
    {
        proof {
            indices@.lemma_take_succ_push(i as int);
            indices@.take(i as int).lemma_push_to_set_commute(indices@[i as int]);
        }
        picked.insert(indices[i]);
        i += 1;
    }
    picked
}

/// `n` distinct indexes below `m`, chosen at random among those that `exclude`
/// does not hold; all of them if there are no more than `n`.
pub fn random_indexes(n: usize, m: usize, exclude: &[usize]) -> (picked: HashSet<usize>)
    ensures
        picked@.finite(),
        forall|x: usize| #[trigger] picked@.contains(x) ==> x < m && !exclude@.contains(x),
        picked@.len() == min_nat(n as nat, candidate_indexes(m as nat, exclude@).len()),
        exists|s: Shuffle|
            {
                &&& s.source() == candidate_indexes(m as nat, exclude@)
                &&& s.order().to_multiset() == s.source().to_multiset()
                &&& picked@ == s.order().take(min_nat(n as nat, s.order().len()) as int).to_set()
            },
{
    let candidate_list = candidates(m, exclude);
    let ghost before = candidate_list@;
    let shuffled = shuffle(candidate_list);
    let indices = shuffled.order_vec();
    let picked = first_indexes(indices, n);
    proof {
        lemma_candidate_indexes(m as nat, exclude@);
        lemma_permutation_keeps_elements(before, indices@);
        let k = min_nat(n as nat, indices@.len()) as int;
        let prefix = indices@.take(k);
        assert(prefix.no_duplicates()) by {
            assert forall|i: int, j: int|
                0 <= i < prefix.len() && 0 <= j < prefix.len() && i != j implies prefix[i]
                != prefix[j] by {
                assert(prefix[i] == indices@[i]);
                assert(prefix[j] == indices@[j]);
            }
        }
        prefix.unique_seq_to_set();
        assert forall|x: usize| #[trigger] picked@.contains(x) implies x < m && !exclude@.contains(
            x,
        ) by {
            assert(prefix.contains(x));
            let i = choose|i: int| 0 <= i < prefix.len() && prefix[i] == x;
            assert(indices@[i] == x);
            assert(indices@.contains(x));
        }
        assert(shuffled.order().to_multiset() == shuffled.source().to_multiset());
    }
    picked
}

/// A permutation of a sequence without duplicates holds the same elements and
/// has no duplicates either.
pub proof fn lemma_permutation_keeps_elements(a: Seq<usize>, b: Seq<usize>)
    requires
        a.no_duplicates(),
        a.to_multiset() == b.to_multiset(),
    ensures
        b.no_duplicates(),
        b.len() == a.len(),
        forall|x: usize| #[trigger] b.contains(x) <==> a.contains(x),
{
    a.to_multiset_ensures();
    b.to_multiset_ensures();
    a.lemma_multiset_has_no_duplicates();
    assert forall|x: usize| #[trigger] b.contains(x) <==> a.contains(x) by {
        assert(a.to_multiset().count(x) == b.to_multiset().count(x));
        assert(b.contains(x) <==> b.to_multiset().count(x) > 0);
        assert(a.contains(x) <==> a.to_multiset().count(x) > 0);
    }
    assert forall|x: usize| b.to_multiset().contains(x) implies b.to_multiset().count(x) == 1 by {
        assert(a.to_multiset().contains(x));
    }
    b.lemma_multiset_has_no_duplicates_conv();
}

} // verus!
