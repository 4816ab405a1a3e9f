//! The order in which clue removals are tried: one Fisher–Yates pass over
//! a list of positions, driven by draws that the caller supplies.

use vstd::prelude::*;
use vstd::multiset::*;
use vstd::seq_lib::*;

verus! {

/// `s` with the elements at `i` and `j` exchanged.
pub open spec fn swapped(s: Seq<usize>, i: int, j: int) -> Seq<usize> {
    s.update(i, s[j]).update(j, s[i])
}

/// Whether `draws` can drive a pass over `len` positions: one draw for each
/// index from `len - 1` down to 1, none of them above its index.
pub open spec fn valid_draws(len: nat, draws: Seq<usize>) -> bool {
    &&& draws.len() == if len <= 1 { 0 } else { len - 1 }
    &&& forall|k: int| 0 <= k < draws.len() ==> #[trigger] draws[k] <= len - 1 - k
}

/// The positions after the first `k` steps of the pass: step `k` (counted
/// from 1) exchanges the element at index `len - k` with the one at
/// `draws[k - 1]`.
pub open spec fn shuffled_upto(positions: Seq<usize>, draws: Seq<usize>, k: nat) -> Seq<usize>
    decreases k,
{
    if k == 0 {
        positions
    } else {
        swapped(
            shuffled_upto(positions, draws, (k - 1) as nat),
            positions.len() - k,
            draws[k - 1] as int,
        )
    }
}

/// The positions after the whole pass.
pub open spec fn shuffled(positions: Seq<usize>, draws: Seq<usize>) -> Seq<usize> {
    shuffled_upto(positions, draws, draws.len())
}

/// The list `0, 1, .., n - 1`.
pub open spec fn iota(n: nat) -> Seq<usize> {
    Seq::new(n, |i: int| i as usize)
}

/// Whether `s` holds each of `0, .., n - 1` exactly once.
pub open spec fn arranges(s: Seq<usize>, n: nat) -> bool {
    &&& s.len() == n
    &&& forall|k: int| 0 <= k < s.len() ==> #[trigger] s[k] < n
    &&& s.no_duplicates()
}

/// Exchanging two elements keeps the elements.
pub proof fn lemma_swapped_keeps(s: Seq<usize>, i: int, j: int)
    requires
        0 <= i < s.len(),
        0 <= j < s.len(),
    ensures
        swapped(s, i, j).len() == s.len(),
        swapped(s, i, j).to_multiset() == s.to_multiset(),
{
    broadcast use group_multiset_axioms;

    let mid = s.update(i, s[j]);
    to_multiset_update(s, i, s[j]);
    to_multiset_update(mid, j, s[i]);
    s.to_multiset_ensures();
    assert(s.to_multiset().count(s[i]) > 0) by {
        assert(s.contains(s[i]));
    }
    assert(s.to_multiset().count(s[j]) > 0) by {
        assert(s.contains(s[j]));
    }
    assert(swapped(s, i, j).to_multiset() =~= s.to_multiset());
}

/// Every stage of the pass has the length of the input and holds the same
/// elements, each as often as the input does.
pub proof fn lemma_shuffled_upto_keeps(positions: Seq<usize>, draws: Seq<usize>, k: nat)
    requires
        valid_draws(positions.len(), draws),
        k <= draws.len(),
    ensures
        shuffled_upto(positions, draws, k).len() == positions.len(),
        shuffled_upto(positions, draws, k).to_multiset() == positions.to_multiset(),
    decreases k,
{
    if k > 0 {
        lemma_shuffled_upto_keeps(positions, draws, (k - 1) as nat);
        let before = shuffled_upto(positions, draws, (k - 1) as nat);
        assert(draws[k - 1] <= positions.len() - 1 - (k - 1));
        lemma_swapped_keeps(before, positions.len() - k, draws[k - 1] as int);
    }
}

/// The pass is a permutation: its result holds exactly the elements of its
/// input, each as often as the input does.
pub proof fn lemma_shuffle_is_permutation(positions: Seq<usize>, draws: Seq<usize>)
    requires
        valid_draws(positions.len(), draws),
    ensures
        shuffled(positions, draws).len() == positions.len(),
        shuffled(positions, draws).to_multiset() == positions.to_multiset(),
{
    lemma_shuffled_upto_keeps(positions, draws, draws.len());
}

/// Exchanging two elements of an arrangement gives an arrangement.
pub proof fn lemma_swapped_arranges(s: Seq<usize>, n: nat, i: int, j: int)
    requires
        arranges(s, n),
        0 <= i < n,
        0 <= j < n,
    ensures
        arranges(swapped(s, i, j), n),
{
    let t = swapped(s, i, j);
    assert forall|a: int, b: int| 0 <= a < t.len() && 0 <= b < t.len() && a != b implies t[a]
        != t[b] by {
        let from_a = if a == i { j } else if a == j { i } else { a };
        let from_b = if b == i { j } else if b == j { i } else { b };
        assert(t[a] == s[from_a]);
        assert(t[b] == s[from_b]);
        assert(from_a != from_b);
    }
}

/// Shuffling an arrangement gives an arrangement.
pub proof fn lemma_shuffled_arranges(positions: Seq<usize>, draws: Seq<usize>, k: nat)
    requires
        arranges(positions, positions.len()),
        valid_draws(positions.len(), draws),
        k <= draws.len(),
    ensures
        arranges(shuffled_upto(positions, draws, k), positions.len()),
    decreases k,
{
    if k > 0 {
        lemma_shuffled_arranges(positions, draws, (k - 1) as nat);
        assert(draws[k - 1] <= positions.len() - 1 - (k - 1));
        lemma_swapped_arranges(
            shuffled_upto(positions, draws, (k - 1) as nat),
            positions.len(),
            positions.len() - k,
            draws[k - 1] as int,
        );
    }
}

/// The bound of the draw for step `k` (counted from 0) of a pass over `len`
/// positions: the draw must be below it.
pub fn draw_bound(len: usize, k: usize) -> (bound: usize)
    requires
        k + 1 < len,
    ensures
        bound == len - k,
{
    len - k
}

/// One Fisher–Yates pass over `positions`: for each index from the last
/// down to 1, in that order, the element there is exchanged with the one at
/// the index that the next draw names.
pub fn shuffle_indices(positions: &mut Vec<usize>, draws: &[usize])
    requires
        valid_draws(old(positions)@.len(), draws@),
    ensures
        final(positions)@ == shuffled(old(positions)@, draws@),
{
    let len = positions.len();
    if len <= 1 {
        return ;
    }
    let mut k: usize = 0;
    while k < len - 1
        invariant
            len == old(positions)@.len(),
            len >= 2,
            k <= len - 1,
            valid_draws(len as nat, draws@),
            positions@.len() == len,
            positions@ == shuffled_upto(old(positions)@, draws@, k as nat),
        decreases len - 1 - k,
    {
        let i: usize = len - 1 - k;
        let j: usize = draws[k];
        assert(draws@[k as int] <= len - 1 - k);
        let at_i: usize = positions[i];
        let at_j: usize = positions[j];
        positions.set(i, at_j);
        positions.set(j, at_i);
        k += 1;
    }
}

/// The positions `0, 1, .., n - 1`, in that order.
pub fn identity_order(n: usize) -> (out: Vec<usize>)
    ensures
        out@ == iota(n as nat),
{
    let mut out: Vec<usize> = Vec::with_capacity(n);
    let mut i: usize = 0;
    while i < n
        invariant
            i <= n,
            out@ == iota(i as nat),
        decreases n - i,
    {
        out.push(i);
        assert(out@ =~= iota((i + 1) as nat));
        i += 1;
    }
    out
}

} // verus!
