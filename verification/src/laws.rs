//! What holds of the pool when the in-memory directory is the only party
//! that writes: every acquisition takes one pod out of the pool, and every
//! release puts it back.
use crate::error::ApiErrorView;
use crate::labels::lemma_apply_one_pair;
use crate::mock::{
    holds,
    is_listed,
    lemma_find_unique,
    lemma_mismatch_is_conflict,
    lemma_patch_keeps_wf,
    lemma_update_keeps_wf,
    listing,
    patch_answer,
    patch_effect,
    patched,
    store_wf,
    version_mismatch,
    MockPodOperations,
    StoredPod,
};
use crate::pod::{busy_value, ready_value, status_key, PodView};
use crate::pod_manager::{
    acquire_run,
    attempt_run,
    busy_delta,
    claim_run,
    ready_delta,
    release_run,
    write_target,
    AttemptView,
    ClaimView,
};
use crate::selector::{pair_holds, selector_matches};
use crate::text::{
    is_whitespace,
    lemma_split_joined,
    lemma_split_nonempty,
    lemma_split_without_separator,
    split,
    trim,
};
use crate::shuffle::is_permutation;
use crate::version::{lemma_successor_differs, lemma_successor_twice_differs, successor};
use vstd::prelude::*;
use vstd::seq_lib::*;

verus! {

/// The pool: the names of the pods that a listing of `namespace` by
/// `selector` shows.
pub open spec fn pool(store: Seq<StoredPod>, namespace: Seq<char>, selector: Seq<char>) -> Set<
    Seq<char>,
> {
    Set::new(
        |name: Seq<char>|
            exists|i: int|
                holds(store, namespace, name, i) && is_listed(store[i], namespace, selector),
    )
}

/// Every pod of the pool has a resource version.
pub open spec fn pool_versioned(
    store: Seq<StoredPod>,
    namespace: Seq<char>,
    selector: Seq<char>,
) -> bool {
    forall|i: int|
        0 <= i < store.len() && is_listed(#[trigger] store[i], namespace, selector)
            ==> store[i].pod.resource_version is Some
}

/// Every pod of the pool has the status `ready`.
pub open spec fn pool_ready(store: Seq<StoredPod>, namespace: Seq<char>, selector: Seq<char>) -> bool {
    forall|i: int|
        0 <= i < store.len() && is_listed(#[trigger] store[i], namespace, selector)
            ==> store[i].pod.has_status(ready_value())
}

/// `selector` shows no pod whose status is `busy`.
pub open spec fn excludes_busy(selector: Seq<char>) -> bool {
    forall|labels: Map<Seq<char>, Seq<char>>|
        labels.contains_pair(status_key(), busy_value()) ==> !#[trigger] selector_matches(
            labels,
            selector,
        )
}

/// A selector with a pair that asks for another status than `busy` shows no
/// busy pod.
pub proof fn lemma_status_pair_excludes_busy(selector: Seq<char>, i: int)
    requires
        0 <= i < split(selector, ',').len(),
        split(split(selector, ',')[i], '=').len() == 2,
        trim(split(split(selector, ',')[i], '=')[0]) == status_key(),
        trim(split(split(selector, ',')[i], '=')[1]) != busy_value(),
    ensures
        excludes_busy(selector),
{
    assert forall|labels: Map<Seq<char>, Seq<char>>|
        labels.contains_pair(status_key(), busy_value()) implies !#[trigger] selector_matches(
        labels,
        selector,
    ) by {
        assert(!pair_holds(labels, split(selector, ',')[i]));
    }
}

/// The selector `status=ready`, alone or behind other pairs, shows no busy
/// pod.
pub proof fn lemma_ready_selector_excludes_busy(front: Seq<char>)
    ensures
        excludes_busy("status=ready"@),
        excludes_busy(front + ",status=ready"@),
{
    reveal_strlit("status=ready");
    reveal_strlit(",status=ready");
    reveal_strlit("status");
    reveal_strlit("ready");
    reveal_strlit("busy");
    let pair = "status=ready"@;
    let key = "status"@;
    let value = "ready"@;
    assert(pair =~= key + seq!['='] + value);
    assert(!key.contains('='));
    assert(!value.contains('='));
    assert(!pair.contains(','));
    lemma_split_joined(key, value, '=');
    lemma_split_without_separator(key, '=');
    lemma_split_without_separator(value, '=');
    lemma_split_without_separator(pair, ',');
    assert(split(pair, '=') =~~= seq![key, value]);
    assert(trim(key) == key) by {
        assert(!is_whitespace(key.first()) && !is_whitespace(key.last()));
    }
    assert(trim(value) == value) by {
        assert(!is_whitespace(value.first()) && !is_whitespace(value.last()));
    }
    assert(value != busy_value()) by {
        assert(value[0] != busy_value()[0]);
    }
    lemma_status_pair_excludes_busy(pair, 0);
    let whole = front + ",status=ready"@;
    assert(whole =~= front + seq![','] + pair);
    lemma_split_joined(front, pair, ',');
    lemma_split_nonempty(front, ',');
    let at = split(front, ',').len() as int;
    assert(split(whole, ',')[at] == pair);
    lemma_status_pair_excludes_busy(whole, at);
}

/// `pod` as a lease leaves it: busy, at the next version.
pub open spec fn leased(pod: PodView) -> PodView {
    patched(pod, busy_delta())
}

/// `pod` as a release leaves it: ready, at the next version.
pub open spec fn released(pod: PodView) -> PodView {
    patched(pod, ready_delta())
}

/// The store with the pod at `i` replaced by `pod`.
pub open spec fn with_pod(store: Seq<StoredPod>, i: int, pod: PodView) -> Seq<StoredPod> {
    store.update(i, StoredPod { namespace: store[i].namespace, pod })
}

/// A listing shows the pods of the entries that are listed, and no others.
pub proof fn lemma_listing_members(store: Seq<StoredPod>, namespace: Seq<char>, selector: Seq<char>)
    ensures
        forall|pod: PodView|
            listing(store, namespace, selector).contains(pod) <==> exists|i: int|
                0 <= i < store.len() && is_listed(#[trigger] store[i], namespace, selector)
                    && store[i].pod == pod,
    decreases store.len(),
{
    let shown = listing(store, namespace, selector);
    if store.len() == 0 {
        assert forall|pod: PodView| shown.contains(pod) <==> exists|i: int|
            0 <= i < store.len() && is_listed(#[trigger] store[i], namespace, selector)
                && store[i].pod == pod by {}
    } else {
        let front = store.drop_last();
        let before = listing(front, namespace, selector);
        lemma_listing_members(front, namespace, selector);
        assert forall|pod: PodView| shown.contains(pod) <==> exists|i: int|
            0 <= i < store.len() && is_listed(#[trigger] store[i], namespace, selector)
                && store[i].pod == pod by {
            if shown.contains(pod) {
                let k = choose|k: int| 0 <= k < shown.len() && shown[k] == pod;
                if k < before.len() {
                    assert(before[k] == pod);
                    assert(before.contains(pod));
                    let i = choose|i: int|
                        0 <= i < front.len() && is_listed(#[trigger] front[i], namespace, selector)
                            && front[i].pod == pod;
                    assert(store[i] == front[i]);
                } else {
                    assert(store[store.len() - 1] == store.last());
                }
            }
            if exists|i: int|
                0 <= i < store.len() && is_listed(#[trigger] store[i], namespace, selector)
                    && store[i].pod == pod {
                let i = choose|i: int|
                    0 <= i < store.len() && is_listed(#[trigger] store[i], namespace, selector)
                        && store[i].pod == pod;
                if i < store.len() - 1 {
                    assert(front[i] == store[i]);
                    assert(before.contains(pod));
                    let k = choose|k: int| 0 <= k < before.len() && before[k] == pod;
                    assert(shown[k] == pod);
                } else {
                    assert(shown[shown.len() - 1] == pod);
                }
            }
        }
    }
}

/// The pool is empty exactly if the listing is.
pub proof fn lemma_pool_of_listing(store: Seq<StoredPod>, namespace: Seq<char>, selector: Seq<char>)
    requires
        store_wf(store),
    ensures
        listing(store, namespace, selector).len() == 0 <==> pool(store, namespace, selector)
            =~= Set::<Seq<char>>::empty(),
{
    let shown = listing(store, namespace, selector);
    lemma_listing_members(store, namespace, selector);
    if shown.len() > 0 {
        assert(shown.contains(shown[0]));
        let i = choose|i: int|
            0 <= i < store.len() && is_listed(#[trigger] store[i], namespace, selector)
                && store[i].pod == shown[0];
        assert(store[i].pod.name is Some);
        assert(holds(store, namespace, store[i].pod.name->0, i));
        assert(pool(store, namespace, selector).contains(store[i].pod.name->0));
    } else {
        assert forall|name: Seq<char>| !pool(store, namespace, selector).contains(name) by {
            if pool(store, namespace, selector).contains(name) {
                let i = choose|i: int|
                    holds(store, namespace, name, i) && is_listed(store[i], namespace, selector);
                assert(shown.contains(store[i].pod));
            }
        }
    }
}

/// The pool is finite.
pub proof fn lemma_pool_finite(store: Seq<StoredPod>, namespace: Seq<char>, selector: Seq<char>)
    ensures
        pool(store, namespace, selector).finite(),
{
    let names = store.map_values(|entry: StoredPod| entry.pod.name->0);
    seq_to_set_is_finite(names);
    assert forall|name: Seq<char>|
        pool(store, namespace, selector).contains(name) implies names.to_set().contains(name) by {
        let i = choose|i: int|
            holds(store, namespace, name, i) && is_listed(store[i], namespace, selector);
        assert(names[i] == name);
        assert(names.contains(name));
    }
    vstd::set_lib::lemma_len_subset(pool(store, namespace, selector), names.to_set());
}

/// A lease writes the status `busy` and moves the version on; it leaves the
/// pod's name, namespace and address as they were.
pub proof fn lemma_leased_is_busy(pod: PodView)
    ensures
        leased(pod).has_status(busy_value()),
        leased(pod).name == pod.name,
        leased(pod).namespace == pod.namespace,
        leased(pod).pod_ip == pod.pod_ip,
        leased(pod).resource_version is Some,
        leased(pod).resource_version != pod.resource_version,
{
    lemma_apply_one_pair(pod.labels_or_empty(), status_key(), busy_value());
    if pod.resource_version is Some {
        lemma_successor_differs(pod.resource_version->0);
    }
}

/// A release writes the status `ready` and moves the version on; it leaves
/// the pod's name, namespace and address as they were.
pub proof fn lemma_released_is_ready(pod: PodView)
    ensures
        released(pod).has_status(ready_value()),
        released(pod).name == pod.name,
        released(pod).namespace == pod.namespace,
        released(pod).pod_ip == pod.pod_ip,
        released(pod).resource_version is Some,
        released(pod).resource_version != pod.resource_version,
{
    lemma_apply_one_pair(pod.labels_or_empty(), status_key(), ready_value());
    if pod.resource_version is Some {
        lemma_successor_differs(pod.resource_version->0);
    }
}

/// A release of a pod that was ready before its lease restores its labels.
pub proof fn lemma_release_restores_labels(pod: PodView)
    requires
        pod.has_status(ready_value()),
    ensures
        pod.labels is Some,
        released(leased(pod)).labels == pod.labels,
        released(leased(pod)).name == pod.name,
        released(leased(pod)).namespace == pod.namespace,
{
    let labels = pod.labels_or_empty();
    assert(pod.labels is Some) by {
        assert(labels.contains_key(status_key()));
    }
    lemma_apply_one_pair(labels, status_key(), busy_value());
    lemma_apply_one_pair(leased(pod).labels_or_empty(), status_key(), ready_value());
    assert(released(leased(pod)).labels->0 =~= labels);
}

/// What one acquisition does to the in-memory directory.
///
/// If the pool is empty, no pod is returned and nothing changes. Otherwise
/// one pod of the pool is returned as the lease leaves it, and that is the
/// one change to the directory.
pub proof fn lemma_acquire_leases_one(
    pre: MockPodOperations,
    post: MockPodOperations,
    namespace: Seq<char>,
    selector: Seq<char>,
    attempts: nat,
    result: Result<Option<PodView>, ApiErrorView>,
)
    requires
        store_wf(pre@),
        pool_versioned(pre@, namespace, selector),
        attempts > 0,
        acquire_run(pre, post, namespace, selector, attempts, result),
    ensures
        store_wf(post@),
        pool(pre@, namespace, selector) =~= Set::<Seq<char>>::empty() ==> result == Ok::<
            Option<PodView>,
            ApiErrorView,
        >(None) && post@ == pre@,
        !(pool(pre@, namespace, selector) =~= Set::<Seq<char>>::empty()) ==> exists|i: int|
            0 <= i < pre@.len() && is_listed(#[trigger] pre@[i], namespace, selector) && result
                == Ok::<Option<PodView>, ApiErrorView>(Some(leased(pre@[i].pod))) && post@
                == with_pod(pre@, i, leased(pre@[i].pod)),
{
    let store = pre@;
    lemma_pool_of_listing(store, namespace, selector);
    lemma_listing_members(store, namespace, selector);
    let (mid, outcome) = choose|mid: MockPodOperations, outcome: AttemptView| #[trigger]
        attempt_run(pre, mid, namespace, selector, outcome) && match outcome {
            AttemptView::Done(r) => post == mid && result == r,
            AttemptView::Retry => acquire_run(
                mid,
                post,
                namespace,
                selector,
                (attempts - 1) as nat,
                result,
            ),
        };
    let shown = listing(store, namespace, selector);
    if shown.len() > 0 {
        let (order, claim) = choose|order: Seq<PodView>, claim: ClaimView|
            is_permutation(order, shown) && #[trigger] claim_run(
                pre,
                mid,
                namespace,
                order,
                claim,
            ) && outcome == crate::pod_manager::attempt_of(claim);
        to_multiset_len(order);
        to_multiset_len(shown);
        let first = order.first();
        assert(order.contains(first)) by {
            assert(order[0] == first);
        }
        to_multiset_contains(order, first);
        to_multiset_contains(shown, first);
        assert(shown.contains(first));
        let i = choose|i: int|
            0 <= i < store.len() && is_listed(#[trigger] store[i], namespace, selector)
                && store[i].pod == first;
        let name = first.name->0;
        let version = first.resource_version->0;
        assert(holds(store, namespace, name, i));
        lemma_find_unique(store, namespace, name, i);
        assert(write_target(first) == Ok::<(Seq<char>, Seq<char>), ApiErrorView>((name, version)));
        assert(patch_answer(store, namespace, name, busy_delta(), version) == Ok::<
            PodView,
            ApiErrorView,
        >(leased(first)));
        lemma_update_keeps_wf(
            store,
            i,
            StoredPod { namespace: store[i].namespace, pod: leased(first) },
        );
    }
}

/// A lease takes the pod out of the pool and changes nothing else in it.
pub proof fn lemma_lease_leaves_pool(
    store: Seq<StoredPod>,
    i: int,
    namespace: Seq<char>,
    selector: Seq<char>,
)
    requires
        store_wf(store),
        0 <= i < store.len(),
        is_listed(store[i], namespace, selector),
        excludes_busy(selector),
    ensures
        store_wf(with_pod(store, i, leased(store[i].pod))),
        pool(store, namespace, selector).contains(store[i].pod.name->0),
        pool(with_pod(store, i, leased(store[i].pod)), namespace, selector) == pool(
            store,
            namespace,
            selector,
        ).remove(store[i].pod.name->0),
        pool_versioned(store, namespace, selector) ==> pool_versioned(
            with_pod(store, i, leased(store[i].pod)),
            namespace,
            selector,
        ),
        pool_ready(store, namespace, selector) ==> pool_ready(
            with_pod(store, i, leased(store[i].pod)),
            namespace,
            selector,
        ),
{
    let pod = store[i].pod;
    let name = pod.name->0;
    let after = with_pod(store, i, leased(pod));
    lemma_leased_is_busy(pod);
    lemma_update_keeps_wf(store, i, StoredPod { namespace: store[i].namespace, pod: leased(pod) });
    assert(holds(store, namespace, name, i));
    assert(leased(pod).labels->0.contains_pair(status_key(), busy_value()));
    assert(!is_listed(after[i], namespace, selector));
    assert forall|n: Seq<char>|
        pool(after, namespace, selector).contains(n) <==> pool(store, namespace, selector).remove(
            name,
        ).contains(n) by {
        if pool(after, namespace, selector).contains(n) {
            let j = choose|j: int|
                holds(after, namespace, n, j) && is_listed(after[j], namespace, selector);
            assert(j != i);
            assert(after[j] == store[j]);
            assert(holds(store, namespace, n, j));
            if n == name {
                lemma_find_unique(store, namespace, name, i);
                lemma_find_unique(store, namespace, name, j);
            }
        }
        if pool(store, namespace, selector).remove(name).contains(n) {
            let j = choose|j: int|
                holds(store, namespace, n, j) && is_listed(store[j], namespace, selector);
            assert(j != i);
            assert(after[j] == store[j]);
            assert(holds(after, namespace, n, j));
        }
    }
    assert(pool(after, namespace, selector) =~= pool(store, namespace, selector).remove(name));
    assert forall|j: int|
        0 <= j < after.len() && is_listed(#[trigger] after[j], namespace, selector) implies (
    pool_versioned(store, namespace, selector) ==> after[j].pod.resource_version is Some) && (
    pool_ready(store, namespace, selector) ==> after[j].pod.has_status(ready_value())) by {
        assert(j != i);
        assert(after[j] == store[j]);
    }
}

/// Whether an acquisition returned a pod.
pub open spec fn granted(result: Result<Option<PodView>, ApiErrorView>) -> bool {
    result is Ok && result->Ok_0 is Some
}

/// The pod that an acquisition returned.
pub open spec fn grant(result: Result<Option<PodView>, ApiErrorView>) -> PodView {
    result->Ok_0->0
}

/// `results` are the results of acquisitions that follow each other on the
/// in-memory directory, which they take through `states`.
pub open spec fn acquisitions(
    states: Seq<MockPodOperations>,
    results: Seq<Result<Option<PodView>, ApiErrorView>>,
    namespace: Seq<char>,
    selector: Seq<char>,
    attempts: nat,
) -> bool {
    &&& states.len() == results.len() + 1
    &&& forall|k: int|
        0 <= k < results.len() ==> acquire_run(
            #[trigger] states[k],
            states[k + 1],
            namespace,
            selector,
            attempts,
            results[k],
        )
}

/// What holds after the first `k` of a row of acquisitions, while the pool
/// lasts: the directory is well-formed, the pool has lost `k` pods and
/// gained none, and each of the `k` acquisitions has returned a pod of the
/// pool, now busy and out of the pool, no two of them the same.
pub proof fn lemma_acquisitions_prefix(
    states: Seq<MockPodOperations>,
    results: Seq<Result<Option<PodView>, ApiErrorView>>,
    namespace: Seq<char>,
    selector: Seq<char>,
    attempts: nat,
    k: int,
)
    requires
        attempts > 0,
        excludes_busy(selector),
        acquisitions(states, results, namespace, selector, attempts),
        store_wf(states[0]@),
        pool_versioned(states[0]@, namespace, selector),
        0 <= k <= pool(states[0]@, namespace, selector).len(),
        k <= results.len(),
    ensures
        store_wf(states[k]@),
        pool_versioned(states[k]@, namespace, selector),
        pool(states[k]@, namespace, selector).finite(),
        pool(states[k]@, namespace, selector).len() == pool(states[0]@, namespace, selector).len()
            - k,
        pool(states[k]@, namespace, selector).subset_of(pool(states[0]@, namespace, selector)),
        forall|j: int|
            0 <= j < k ==> granted(#[trigger] results[j]) && grant(results[j]).has_status(
                busy_value(),
            ) && grant(results[j]).name is Some && pool(states[0]@, namespace, selector).contains(
                grant(results[j]).name->0,
            ) && !pool(states[k]@, namespace, selector).contains(grant(results[j]).name->0),
        forall|i: int, j: int|
            0 <= i < j < k ==> grant(#[trigger] results[i]).name != grant(
                #[trigger] results[j],
            ).name,
    decreases k,
{
    lemma_pool_finite(states[0]@, namespace, selector);
    if k > 0 {
        lemma_acquisitions_prefix(states, results, namespace, selector, attempts, k - 1);
        let pre = states[k - 1];
        let post = states[k];
        let result = results[k - 1];
        let before = pool(pre@, namespace, selector);
        assert(acquire_run(pre, post, namespace, selector, attempts, result));
        lemma_acquire_leases_one(pre, post, namespace, selector, attempts, result);
        assert(before.len() > 0);
        assert(!(before =~= Set::<Seq<char>>::empty()));
        let i = choose|i: int|
            0 <= i < pre@.len() && is_listed(#[trigger] pre@[i], namespace, selector) && result
                == Ok::<Option<PodView>, ApiErrorView>(Some(leased(pre@[i].pod))) && post@
                == with_pod(pre@, i, leased(pre@[i].pod));
        lemma_lease_leaves_pool(pre@, i, namespace, selector);
        lemma_leased_is_busy(pre@[i].pod);
        let name = pre@[i].pod.name->0;
        assert(grant(result).name == Some(name));
        assert forall|j: int| 0 <= j < k implies granted(#[trigger] results[j]) && grant(
            results[j],
        ).has_status(busy_value()) && grant(results[j]).name is Some && pool(
            states[0]@,
            namespace,
            selector,
        ).contains(grant(results[j]).name->0) && !pool(states[k]@, namespace, selector).contains(
            grant(results[j]).name->0,
        ) by {
            if j < k - 1 {
                assert(!before.contains(grant(results[j]).name->0));
            }
        }
        assert forall|a: int, b: int| 0 <= a < b < k implies grant(#[trigger] results[a]).name
            != grant(#[trigger] results[b]).name by {
            if b == k - 1 {
                assert(!before.contains(grant(results[a]).name->0));
            }
        }
    }
}

/// Conservation. On a pool of `n` pods whose selector shows no busy pod,
/// `n` acquisitions in a row each return a pod of the pool, now busy, no
/// two of them the same pod; and the acquisition after them returns none.
pub proof fn lemma_conservation(
    states: Seq<MockPodOperations>,
    results: Seq<Result<Option<PodView>, ApiErrorView>>,
    namespace: Seq<char>,
    selector: Seq<char>,
    attempts: nat,
)
    requires
        attempts > 0,
        excludes_busy(selector),
        acquisitions(states, results, namespace, selector, attempts),
        store_wf(states[0]@),
        pool_versioned(states[0]@, namespace, selector),
        results.len() == pool(states[0]@, namespace, selector).len() + 1,
    ensures
        forall|k: int|
            0 <= k < results.len() - 1 ==> granted(#[trigger] results[k]) && grant(
                results[k],
            ).has_status(busy_value()) && grant(results[k]).name is Some && pool(
                states[0]@,
                namespace,
                selector,
            ).contains(grant(results[k]).name->0),
        forall|j: int, k: int|
            0 <= j < k < results.len() - 1 ==> grant(#[trigger] results[j]).name != grant(
                #[trigger] results[k],
            ).name,
        results.last() == Ok::<Option<PodView>, ApiErrorView>(None),
{
    let n = results.len() - 1;
    lemma_acquisitions_prefix(states, results, namespace, selector, attempts, n);
    let rest = pool(states[n]@, namespace, selector);
    rest.lemma_len0_is_empty();
    assert(acquire_run(states[n], states[n + 1], namespace, selector, attempts, results[n]));
    lemma_acquire_leases_one(
        states[n],
        states[n + 1],
        namespace,
        selector,
        attempts,
        results[n],
    );
}

/// A listing shows each pod of the pool once: it is as long as the pool is
/// large.
pub proof fn lemma_listing_counts_pool(
    store: Seq<StoredPod>,
    namespace: Seq<char>,
    selector: Seq<char>,
)
    requires
        store_wf(store),
    ensures
        pool(store, namespace, selector).finite(),
        listing(store, namespace, selector).len() == pool(store, namespace, selector).len(),
    decreases store.len(),
{
    lemma_pool_finite(store, namespace, selector);
    if store.len() == 0 {
        assert(pool(store, namespace, selector) =~= Set::<Seq<char>>::empty());
    } else {
        let front = store.drop_last();
        let last = store.last();
        assert(store_wf(front)) by {
            assert forall|i: int| 0 <= i < front.len() implies (#[trigger] front[i]).pod.name
                is Some by {
                assert(front[i] == store[i]);
            }
            assert forall|i: int, j: int| 0 <= i < j < front.len() implies !(front[i].namespace
                == front[j].namespace && front[i].pod.name == front[j].pod.name) by {
                assert(front[i] == store[i] && front[j] == store[j]);
            }
        }
        lemma_listing_counts_pool(front, namespace, selector);
        let before = pool(front, namespace, selector);
        let name = last.pod.name->0;
        assert(store[store.len() - 1] == last);
        assert(last.pod.name is Some);
        if is_listed(last, namespace, selector) {
            assert(!before.contains(name)) by {
                if before.contains(name) {
                    let j = choose|j: int|
                        holds(front, namespace, name, j) && is_listed(
                            front[j],
                            namespace,
                            selector,
                        );
                    assert(front[j] == store[j]);
                    assert(!(store[j].namespace == store[store.len() - 1].namespace
                        && store[j].pod.name == store[store.len() - 1].pod.name));
                }
            }
            assert forall|n: Seq<char>|
                pool(store, namespace, selector).contains(n) <==> before.insert(name).contains(
                    n,
                ) by {
                if pool(store, namespace, selector).contains(n) {
                    let j = choose|j: int|
                        holds(store, namespace, n, j) && is_listed(store[j], namespace, selector);
                    if j < store.len() - 1 {
                        assert(front[j] == store[j]);
                        assert(holds(front, namespace, n, j));
                    }
                }
                if before.insert(name).contains(n) {
                    if n == name {
                        assert(holds(store, namespace, n, store.len() - 1));
                    } else {
                        let j = choose|j: int|
                            holds(front, namespace, n, j) && is_listed(
                                front[j],
                                namespace,
                                selector,
                            );
                        assert(front[j] == store[j]);
                        assert(holds(store, namespace, n, j));
                    }
                }
            }
            assert(pool(store, namespace, selector) =~= before.insert(name));
        } else {
            assert forall|n: Seq<char>|
                pool(store, namespace, selector).contains(n) <==> before.contains(n) by {
                if pool(store, namespace, selector).contains(n) {
                    let j = choose|j: int|
                        holds(store, namespace, n, j) && is_listed(store[j], namespace, selector);
                    assert(j < store.len() - 1);
                    assert(front[j] == store[j]);
                    assert(holds(front, namespace, n, j));
                }
                if before.contains(n) {
                    let j = choose|j: int|
                        holds(front, namespace, n, j) && is_listed(
                            front[j],
                            namespace,
                            selector,
                        );
                    assert(front[j] == store[j]);
                    assert(holds(store, namespace, n, j));
                }
            }
            assert(pool(store, namespace, selector) =~= before);
        }
    }
}

/// Mutual exclusion, one call after the other. Of two acquisitions on a pool
/// of one pod, the first returns the pod and the second returns none.
pub proof fn lemma_mutual_exclusion(
    s0: MockPodOperations,
    s1: MockPodOperations,
    s2: MockPodOperations,
    namespace: Seq<char>,
    selector: Seq<char>,
    attempts: nat,
    first: Result<Option<PodView>, ApiErrorView>,
    second: Result<Option<PodView>, ApiErrorView>,
)
    requires
        attempts > 0,
        excludes_busy(selector),
        store_wf(s0@),
        pool_versioned(s0@, namespace, selector),
        pool(s0@, namespace, selector).len() == 1,
        acquire_run(s0, s1, namespace, selector, attempts, first),
        acquire_run(s1, s2, namespace, selector, attempts, second),
    ensures
        granted(first),
        grant(first).has_status(busy_value()),
        grant(first).name is Some,
        pool(s0@, namespace, selector).contains(grant(first).name->0),
        second == Ok::<Option<PodView>, ApiErrorView>(None),
        s2@ == s1@,
{
    let states = seq![s0, s1, s2];
    let results = seq![first, second];
    assert(acquisitions(states, results, namespace, selector, attempts)) by {
        assert forall|k: int| 0 <= k < results.len() implies acquire_run(
            #[trigger] states[k],
            states[k + 1],
            namespace,
            selector,
            attempts,
            results[k],
        ) by {
            if k == 0 {
                assert(states[0] == s0 && states[1] == s1 && results[0] == first);
            } else {
                assert(states[1] == s1 && states[2] == s2 && results[1] == second);
            }
        }
    }
    lemma_conservation(states, results, namespace, selector, attempts);
    assert(results[0] == first);
    assert(results.last() == second);
    lemma_acquisitions_prefix(states, results, namespace, selector, attempts, 1);
    pool(s1@, namespace, selector).lemma_len0_is_empty();
    lemma_acquire_leases_one(s1, s2, namespace, selector, attempts, second);
}

/// Mutual exclusion in a race. Two coordinators have listed a pool of one
/// pod. The one that writes first wins the pod. The other then tries what
/// it had listed: it loses every candidate to a conflict and changes
/// nothing, and the acquisition that it goes on with returns none.
pub proof fn lemma_race_has_one_winner(
    s0: MockPodOperations,
    s1: MockPodOperations,
    s2: MockPodOperations,
    s3: MockPodOperations,
    namespace: Seq<char>,
    selector: Seq<char>,
    attempts: nat,
    order_of_first: Seq<PodView>,
    order_of_second: Seq<PodView>,
    first: ClaimView,
    second: ClaimView,
    result: Result<Option<PodView>, ApiErrorView>,
)
    requires
        excludes_busy(selector),
        store_wf(s0@),
        pool_versioned(s0@, namespace, selector),
        pool(s0@, namespace, selector).len() == 1,
        is_permutation(order_of_first, listing(s0@, namespace, selector)),
        is_permutation(order_of_second, listing(s0@, namespace, selector)),
        claim_run(s0, s1, namespace, order_of_first, first),
        claim_run(s1, s2, namespace, order_of_second, second),
        acquire_run(s2, s3, namespace, selector, attempts, result),
    ensures
        first is Won,
        first->Won_0.has_status(busy_value()),
        second == ClaimView::Lost,
        s2@ == s1@,
        result == Ok::<Option<PodView>, ApiErrorView>(None),
        s3@ == s1@,
{
    let store = s0@;
    let shown = listing(store, namespace, selector);
    lemma_listing_counts_pool(store, namespace, selector);
    lemma_listing_members(store, namespace, selector);
    to_multiset_len(order_of_first);
    to_multiset_len(order_of_second);
    to_multiset_len(shown);
    let pod = shown[0];
    assert(shown.contains(pod));
    assert(order_of_first.contains(order_of_first[0]));
    assert(order_of_second.contains(order_of_second[0]));
    to_multiset_contains(order_of_first, order_of_first[0]);
    to_multiset_contains(order_of_second, order_of_second[0]);
    to_multiset_contains(shown, order_of_first[0]);
    to_multiset_contains(shown, order_of_second[0]);
    assert(order_of_first[0] == pod);
    assert(order_of_second[0] == pod);
    let i = choose|i: int|
        0 <= i < store.len() && is_listed(#[trigger] store[i], namespace, selector)
            && store[i].pod == pod;
    let name = pod.name->0;
    let version = pod.resource_version->0;
    assert(holds(store, namespace, name, i));
    lemma_find_unique(store, namespace, name, i);
    assert(write_target(pod) == Ok::<(Seq<char>, Seq<char>), ApiErrorView>((name, version)));
    // The first write goes through.
    assert(patch_answer(store, namespace, name, busy_delta(), version) == Ok::<
        PodView,
        ApiErrorView,
    >(leased(pod)));
    assert(s1@ == with_pod(store, i, leased(pod)));
    lemma_lease_leaves_pool(store, i, namespace, selector);
    lemma_leased_is_busy(pod);
    // The second write expects a version that is no longer the stored one.
    assert(holds(s1@, namespace, name, i));
    lemma_find_unique(s1@, namespace, name, i);
    lemma_successor_differs(version);
    lemma_mismatch_is_conflict(version, successor(version));
    assert(s1@[i].pod == leased(pod));
    assert(patch_answer(s1@, namespace, name, busy_delta(), version) == Err::<
        PodView,
        ApiErrorView,
    >(version_mismatch(version, successor(version))));
    assert(patch_effect(s1@, namespace, name, busy_delta(), version) == s1@);
    assert(order_of_second.drop_first().len() == 0);
    assert(write_target(order_of_second.first()) == Ok::<(Seq<char>, Seq<char>), ApiErrorView>(
        (name, version),
    ));
    reveal_with_fuel(claim_run, 2);
    assert(second == ClaimView::Lost && s2@ == s1@);
    // What is left of the pool is empty.
    pool(s1@, namespace, selector).lemma_len0_is_empty();
    if attempts > 0 {
        lemma_acquire_leases_one(s2, s3, namespace, selector, attempts, result);
    }
}

/// What one release does to the in-memory directory.
///
/// For a pod without name or version it fails with no write. Otherwise it
/// is the write of `status=ready` to the pod's name that expects the pod's
/// version: the directory changes as that write changes it, and the release
/// fails exactly if the write does, with its failure.
pub proof fn lemma_release_writes_ready(
    pre: MockPodOperations,
    post: MockPodOperations,
    namespace: Seq<char>,
    pod: PodView,
    result: Result<(), ApiErrorView>,
)
    requires
        store_wf(pre@),
        release_run(pre, post, namespace, pod, result),
    ensures
        store_wf(post@),
        match write_target(pod) {
            Err(e) => post@ == pre@ && result == Err::<(), ApiErrorView>(e),
            Ok(target) => post@ == patch_effect(
                pre@,
                namespace,
                target.0,
                ready_delta(),
                target.1,
            ) && result == (match patch_answer(
                pre@,
                namespace,
                target.0,
                ready_delta(),
                target.1,
            ) {
                Ok(_) => Ok::<(), ApiErrorView>(()),
                Err(e) => Err(e),
            }),
        },
{
    match write_target(pod) {
        Err(e) => {},
        Ok(target) => {
            lemma_patch_keeps_wf(pre@, namespace, target.0, ready_delta(), target.1);
        },
    }
}

/// The release of a stored pod. A release of the pod that stands at `i`,
/// given at the version at which it is stored, goes through: the pod is
/// ready at the next version, and nothing else has changed.
pub proof fn lemma_release_of_stored_pod(
    pre: MockPodOperations,
    post: MockPodOperations,
    namespace: Seq<char>,
    pod: PodView,
    result: Result<(), ApiErrorView>,
    i: int,
)
    requires
        store_wf(pre@),
        release_run(pre, post, namespace, pod, result),
        pod.name is Some,
        pod.resource_version is Some,
        holds(pre@, namespace, pod.name->0, i),
        pre@[i].pod.resource_version == pod.resource_version,
    ensures
        result == Ok::<(), ApiErrorView>(()),
        post@ == with_pod(pre@, i, released(pre@[i].pod)),
        store_wf(post@),
        holds(post@, namespace, pod.name->0, i),
        post@[i].pod.has_status(ready_value()),
        post@[i].pod.resource_version != pod.resource_version,
{
    lemma_release_writes_ready(pre, post, namespace, pod, result);
    lemma_find_unique(pre@, namespace, pod.name->0, i);
    lemma_released_is_ready(pre@[i].pod);
}

/// A release puts the pod back into the pool, as it was before its lease
/// but for the version, if it was ready then.
pub proof fn lemma_release_returns_to_pool(
    store: Seq<StoredPod>,
    i: int,
    namespace: Seq<char>,
    selector: Seq<char>,
)
    requires
        store_wf(store),
        0 <= i < store.len(),
        is_listed(store[i], namespace, selector),
        store[i].pod.has_status(ready_value()),
    ensures
        is_listed(
            StoredPod { namespace: store[i].namespace, pod: released(leased(store[i].pod)) },
            namespace,
            selector,
        ),
        released(leased(store[i].pod)).name == store[i].pod.name,
        released(leased(store[i].pod)).namespace == store[i].pod.namespace,
        released(leased(store[i].pod)).resource_version is Some,
{
    lemma_release_restores_labels(store[i].pod);
}

/// Round trip. A pod that is leased, given back and leased again, with no
/// other pod in the pool meanwhile, is the same pod: it stands at the same
/// place of the directory, under the same namespace and name. It is busy
/// again, at a version that differs from the one of the first lease.
pub proof fn lemma_round_trip(
    s0: MockPodOperations,
    s1: MockPodOperations,
    s2: MockPodOperations,
    s3: MockPodOperations,
    namespace: Seq<char>,
    selector: Seq<char>,
    attempts: nat,
    first: Result<Option<PodView>, ApiErrorView>,
    back: Result<(), ApiErrorView>,
    again: Result<Option<PodView>, ApiErrorView>,
)
    requires
        attempts > 0,
        excludes_busy(selector),
        store_wf(s0@),
        pool_versioned(s0@, namespace, selector),
        pool_ready(s0@, namespace, selector),
        acquire_run(s0, s1, namespace, selector, attempts, first),
        granted(first),
        pool(s1@, namespace, selector) =~= Set::<Seq<char>>::empty(),
        release_run(s1, s2, namespace, grant(first), back),
        acquire_run(s2, s3, namespace, selector, attempts, again),
    ensures
        back == Ok::<(), ApiErrorView>(()),
        granted(again),
        grant(again).name is Some,
        grant(again).name == grant(first).name,
        grant(again).namespace == grant(first).namespace,
        exists|i: int|
            #![trigger s3@[i]]
            holds(s0@, namespace, grant(first).name->0, i) && s1@[i].pod == grant(first)
                && holds(s3@, namespace, grant(again).name->0, i) && s3@[i].pod == grant(again),
        grant(again).has_status(busy_value()),
        grant(again).resource_version != grant(first).resource_version,
{
    let store = s0@;
    lemma_acquire_leases_one(s0, s1, namespace, selector, attempts, first);
    let i = choose|i: int|
        0 <= i < store.len() && is_listed(#[trigger] store[i], namespace, selector) && first
            == Ok::<Option<PodView>, ApiErrorView>(Some(leased(store[i].pod))) && s1@
            == with_pod(store, i, leased(store[i].pod));
    let pod = store[i].pod;
    let name = pod.name->0;
    let taken = leased(pod);
    lemma_leased_is_busy(pod);
    lemma_lease_leaves_pool(store, i, namespace, selector);
    // The release finds the pod at the version of its lease.
    let version = taken.resource_version->0;
    assert(holds(s1@, namespace, name, i));
    lemma_release_of_stored_pod(s1, s2, namespace, taken, back, i);
    lemma_release_returns_to_pool(store, i, namespace, selector);
    // It is the one pod of the pool again.
    assert(is_listed(s2@[i], namespace, selector));
    assert(pool(s2@, namespace, selector).contains(name));
    assert forall|j: int|
        0 <= j < s2@.len() && is_listed(#[trigger] s2@[j], namespace, selector) implies j
        == i by {
        if j != i {
            assert(s2@[j] == s1@[j]);
            assert(s1@[j].pod.name is Some);
            assert(holds(s1@, namespace, s1@[j].pod.name->0, j));
            assert(pool(s1@, namespace, selector).contains(s1@[j].pod.name->0));
        }
    }
    lemma_acquire_leases_one(s2, s3, namespace, selector, attempts, again);
    lemma_leased_is_busy(released(taken));
    lemma_released_is_ready(taken);
    lemma_successor_twice_differs(version);
    assert(holds(s0@, namespace, grant(first).name->0, i) && s1@[i].pod == grant(first) && holds(
        s3@,
        namespace,
        grant(again).name->0,
        i,
    ) && s3@[i].pod == grant(again));
}

} // verus!
