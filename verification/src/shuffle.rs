//! A random order for the candidates of one attempt.
use crate::pod::{pod_views, Pod, PodView};
use rand::seq::SliceRandom;
use vstd::prelude::*;
use vstd::seq_lib::*;

verus! {

/// `a` holds what `b` holds, each as often, in some order.
pub open spec fn is_permutation(a: Seq<PodView>, b: Seq<PodView>) -> bool {
    a.to_multiset() == b.to_multiset()
}

/// Puts `pods` in a random order: a call of `rand`'s `SliceRandom::shuffle`
/// on the vector's slice, with the generator that `rand::thread_rng` hands
/// out. The shuffle does nothing to the slice but swap pairs of its
/// elements, so the vector holds afterwards what it held before, each
/// element as often. That is all that is claimed here: which order comes
/// out, and how likely each order is, is not stated.
#[verifier::external_body]
fn shuffle_in_place(pods: &mut Vec<Pod>)
    ensures
        final(pods)@.to_multiset() == old(pods)@.to_multiset(),
{
    let mut rng = rand::thread_rng();
    pods.shuffle(&mut rng);
}

/// Pods in another order are, by their views, the same pods in another
/// order.
proof fn lemma_views_of_permutation(a: Seq<Pod>, b: Seq<Pod>)
    requires
        a.to_multiset() == b.to_multiset(),
    ensures
        is_permutation(pod_views(a), pod_views(b)),
    decreases a.len(),
{
    broadcast use {to_multiset_len, to_multiset_contains};

    assert(a.len() == b.len()) by {
        to_multiset_len(a);
        to_multiset_len(b);
    }
    if a.len() == 0 {
        assert(pod_views(a) =~= pod_views(b));
    } else {
        let x = a.last();
        assert(a.contains(x)) by {
            assert(a[a.len() - 1] == x);
        }
        to_multiset_contains(a, x);
        to_multiset_contains(b, x);
        assert(b.contains(x));
        let j = choose|j: int| 0 <= j < b.len() && b[j] == x;
        let a1 = a.drop_last();
        let b1 = b.remove(j);
        assert(a1 =~= a.remove(a.len() - 1));
        to_multiset_remove(a, a.len() - 1);
        to_multiset_remove(b, j);
        lemma_views_of_permutation(a1, b1);
        assert(pod_views(a) =~= pod_views(a1).push(x@));
        assert(pod_views(b) =~= pod_views(b1).insert(j, x@));
        to_multiset_build(pod_views(a1), x@);
        to_multiset_insert(pod_views(b1), j, x@);
    }
}

/// The pods of `pods` in a random order.
pub fn shuffled(pods: Vec<Pod>) -> (order: Vec<Pod>)
    ensures
        is_permutation(pod_views(order@), pod_views(pods@)),
        order.len() == pods.len(),
{
    let mut order = pods;
    shuffle_in_place(&mut order);
    proof {
        lemma_views_of_permutation(order@, pods@);
        to_multiset_len(order@);
        to_multiset_len(pods@);
    }
    order
}

} // verus!
