use vstd::prelude::*;
use rand::seq::SliceRandom;
use rand::Rng;

verus! {

/// The numbers below `n` in rising order.
pub open spec fn iota(n: nat) -> Seq<usize> {
    Seq::new(n, |i: int| i as usize)
}

/// Whether `order` lists each number below `n` once and nothing else.
pub open spec fn is_permutation(order: Seq<usize>, n: nat) -> bool {
    &&& order.len() == n
    &&& order.no_duplicates()
    &&& forall|i: int| 0 <= i < order.len() ==> #[trigger] order[i] < n
}

/// Whether `chosen` lists `count` different numbers below `n`.
pub open spec fn is_selection(chosen: Seq<usize>, count: nat, n: nat) -> bool {
    &&& chosen.len() == count
    &&& chosen.no_duplicates()
    &&& forall|i: int| 0 <= i < chosen.len() ==> #[trigger] chosen[i] < n
}

/// Reorders `order` in place with `SliceRandom::shuffle` of the rand crate,
/// drawing from the thread's generator. The call only swaps elements, so the
/// same values stand in the vector afterwards, each as often as before; in
/// which order is left open.
#[verifier::external_body]
fn shuffle(order: &mut Vec<usize>)
    ensures
        final(order)@.to_multiset() == old(order)@.to_multiset(),
{
    order.shuffle(&mut rand::thread_rng());
}

/// Draws a number with `Rng::gen_range` of the rand crate on the range from
/// zero up to, and without, `bound`, from the thread's generator. The number
/// lies in that range; the call does not return on an empty range, which the
/// precondition leaves out.
#[verifier::external_body]
fn random_below(bound: usize) -> (k: usize)
    requires
        bound > 0,
    ensures
        k < bound,
{
    rand::thread_rng().gen_range(0..bound)
}

/// Each number below `n` occurs once in `iota(n)`, and no other number occurs.
pub proof fn lemma_iota_counts(n: nat)
    requires
        n <= usize::MAX,
    ensures
        iota(n).no_duplicates(),
        forall|v: usize| iota(n).to_multiset().count(v) == (if v < n { 1nat } else { 0nat }),
{
    let s = iota(n);
    assert(s.no_duplicates());
    s.lemma_multiset_has_no_duplicates();
    broadcast use vstd::seq_lib::group_to_multiset_ensures;
    assert forall|v: usize| s.to_multiset().count(v) == (if v < n { 1nat } else { 0nat }) by {
        if v < n {
            assert(s[v as int] == v);
            assert(s.contains(v));
            assert(s.to_multiset().contains(v));
        } else {
            if s.contains(v) {
                let i = choose|i: int| 0 <= i < s.len() && s[i] == v;
                assert(s[i] == i as usize);
            }
        }
    }
}

/// A sequence that holds the values of `iota(n)`, each as often, is a
/// permutation of the numbers below `n`.
pub proof fn lemma_shuffled_is_permutation(order: Seq<usize>, n: nat)
    requires
        n <= usize::MAX,
        order.to_multiset() == iota(n).to_multiset(),
    ensures
        is_permutation(order, n),
{
    lemma_iota_counts(n);
    broadcast use vstd::seq_lib::group_to_multiset_ensures;
    assert(order.len() == order.to_multiset().len());
    assert(iota(n).len() == iota(n).to_multiset().len());
    order.lemma_multiset_has_no_duplicates_conv();
    assert forall|i: int| 0 <= i < order.len() implies #[trigger] order[i] < n by {
        assert(order.contains(order[i]));
        assert(order.to_multiset().count(order[i]) > 0);
    }
}

/// The numbers below `n` in a random order.
pub fn shuffled_order(n: usize) -> (order: Vec<usize>)
    ensures
        is_permutation(order@, n as nat),
{
    let mut order: Vec<usize> = Vec::new();
    let mut i: usize = 0;
    while i < n
        invariant
            i <= n,
            order@ == iota(i as nat),
        decreases n - i,
    {
        order.push(i);
        i += 1;
        proof {
            assert(order@ =~= iota(i as nat));
        }
    }
    shuffle(&mut order);
    proof {
        lemma_shuffled_is_permutation(order@, n as nat);
    }
    order
}

/// The first `count` entries of `order`.
fn leading(order: &Vec<usize>, count: usize) -> (chosen: Vec<usize>)
    requires
        count <= order@.len(),
    ensures
        chosen@ == order@.take(count as int),
{
    let mut chosen: Vec<usize> = Vec::new();
    let mut i: usize = 0;
    while i < count
        invariant
            i <= count <= order@.len(),
            chosen@ == order@.take(i as int),
        decreases count - i,
    {
        chosen.push(order[i]);
        i += 1;
        proof {
            assert(chosen@ =~= order@.take(i as int));
        }
    }
    chosen
}

/// The entries of `order` from place `count` on.
fn trailing(order: &Vec<usize>, count: usize) -> (rest: Vec<usize>)
    requires
        count <= order@.len(),
    ensures
        rest@ == order@.skip(count as int),
{
    let mut rest: Vec<usize> = Vec::new();
    let mut i: usize = count;
    while i < order.len()
        invariant
            count <= i <= order@.len(),
            rest@ == order@.subrange(count as int, i as int),
        decreases order@.len() - i,
    {
        rest.push(order[i]);
        i += 1;
        proof {
            assert(rest@ =~= order@.subrange(count as int, i as int));
        }
    }
    proof {
        assert(order@.subrange(count as int, order@.len() as int) =~= order@.skip(count as int));
    }
    rest
}

/// Picks the training examples that become the centers of a radial-basis
/// network: `centers` different ones among `samples`, at random.
pub fn seed_centers(samples: usize, centers: usize) -> (chosen: Vec<usize>)
    requires
        centers <= samples,
    ensures
        is_selection(chosen@, centers as nat, samples as nat),
{
    let order = shuffled_order(samples);
    let chosen = leading(&order, centers);
    proof {
        assert forall|i: int, j: int|
            0 <= i < chosen@.len() && 0 <= j < chosen@.len() && i != j implies chosen@[i]
            != chosen@[j] by {
            assert(chosen@[i] == order@[i] && chosen@[j] == order@[j]);
        }
        assert forall|i: int| 0 <= i < chosen@.len() implies #[trigger] chosen@[i] < samples by {
            assert(chosen@[i] == order@[i]);
        }
    }
    chosen
}

/// Picks, for each of `iterations` steps of online training, the example that
/// the step learns from: one of `samples`, at random and independently of the
/// other steps.
pub fn draw_examples(samples: usize, iterations: usize) -> (picks: Vec<usize>)
    requires
        iterations > 0 ==> samples > 0,
    ensures
        picks@.len() == iterations,
        forall|i: int| 0 <= i < picks@.len() ==> #[trigger] picks@[i] < samples,
{
    let mut picks: Vec<usize> = Vec::new();
    let mut i: usize = 0;
    while i < iterations
        invariant
            i <= iterations,
            iterations > 0 ==> samples > 0,
            picks@.len() == i,
            forall|j: int| 0 <= j < picks@.len() ==> #[trigger] picks@[j] < samples,
        decreases iterations - i,
    {
        let k = random_below(samples);
        picks.push(k);
        i += 1;
    }
    picks
}

/// Parts `total` examples at random into a training part of `train_size`
/// examples and a validation part of the others. Each example goes to one
/// part, and to that part once.
pub fn split_data(total: usize, train_size: usize) -> (parts: (Vec<usize>, Vec<usize>))
    requires
        train_size <= total,
    ensures
        parts.0@.len() == train_size,
        parts.1@.len() == total - train_size,
        is_permutation(parts.0@ + parts.1@, total as nat),
{
    let order = shuffled_order(total);
    let train = leading(&order, train_size);
    let validation = trailing(&order, train_size);
    proof {
        assert(train@ + validation@ =~= order@);
    }
    (train, validation)
}

} // verus!
