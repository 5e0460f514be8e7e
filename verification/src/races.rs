//! Writes that race on the in-memory directory.
//!
//! Whatever the order in which the writes of any number of parties arrive:
//! of the writes that expect one and the same version of a pod, only the
//! first that goes through goes through.
use crate::error::ApiErrorView;
use crate::labels::LabelPair;
use crate::mock::{
    find,
    holds,
    lemma_find_unique,
    lemma_patch_keeps_wf,
    lemma_stale_write_is_refused,
    patch_answer,
    patch_effect,
    store_wf,
    StoredPod,
};
use crate::pod::PodView;
use crate::version::{lemma_successor_n_differs, successor, successor_n};
use vstd::prelude::*;

verus! {

/// One write to the directory: labels for a pod, and the version that the
/// writer expects the pod to have.
pub ghost struct Write {
    pub namespace: Seq<char>,
    pub name: Seq<char>,
    pub delta: Seq<LabelPair>,
    pub expected: Seq<char>,
}

/// The answer that `write` gets from the directory in the state `store`.
pub open spec fn answer_to(store: Seq<StoredPod>, write: Write) -> Result<PodView, ApiErrorView> {
    patch_answer(store, write.namespace, write.name, write.delta, write.expected)
}

/// The state in which `write` leaves the directory.
pub open spec fn after_write(store: Seq<StoredPod>, write: Write) -> Seq<StoredPod> {
    patch_effect(store, write.namespace, write.name, write.delta, write.expected)
}

/// The state in which `writes` leave the directory, one after the other.
pub open spec fn after_writes(store: Seq<StoredPod>, writes: Seq<Write>) -> Seq<StoredPod>
    decreases writes.len(),
{
    if writes.len() == 0 {
        store
    } else {
        after_write(after_writes(store, writes.drop_last()), writes.last())
    }
}

/// A write leaves every pod where it stands, under its name, and either as
/// it was or at the next version.
pub proof fn lemma_write_moves_version(store: Seq<StoredPod>, write: Write, p: int)
    requires
        store_wf(store),
        0 <= p < store.len(),
    ensures
        store_wf(after_write(store, write)),
        after_write(store, write).len() == store.len(),
        after_write(store, write)[p].namespace == store[p].namespace,
        after_write(store, write)[p].pod.name == store[p].pod.name,
        after_write(store, write)[p] == store[p] || (store[p].pod.resource_version is Some
            && after_write(store, write)[p].pod.resource_version == Some(
            successor(store[p].pod.resource_version->0),
        )),
{
    lemma_patch_keeps_wf(store, write.namespace, write.name, write.delta, write.expected);
    match find(store, write.namespace, write.name) {
        Some(i) => {
            assert(holds(store, write.namespace, write.name, i));
        },
        None => {},
    }
}

/// Writes keep the directory well-formed and as long as it was.
pub proof fn lemma_writes_keep_shape(store: Seq<StoredPod>, writes: Seq<Write>)
    requires
        store_wf(store),
    ensures
        store_wf(after_writes(store, writes)),
        after_writes(store, writes).len() == store.len(),
    decreases writes.len(),
{
    if writes.len() > 0 {
        lemma_writes_keep_shape(store, writes.drop_last());
        let before = after_writes(store, writes.drop_last());
        lemma_patch_keeps_wf(
            before,
            writes.last().namespace,
            writes.last().name,
            writes.last().delta,
            writes.last().expected,
        );
        match find(before, writes.last().namespace, writes.last().name) {
            Some(k) => {
                assert(holds(before, writes.last().namespace, writes.last().name, k));
            },
            None => {},
        }
    }
}

/// Moving on from the next version is moving on one step further.
proof fn lemma_successor_n_shift(version: Seq<char>, steps: nat)
    ensures
        successor_n(successor(version), steps) == successor_n(version, steps + 1),
    decreases steps,
{
    if steps == 0 {
        assert(successor_n(version, 1) == successor(successor_n(version, 0)));
    } else {
        lemma_successor_n_shift(version, (steps - 1) as nat);
    }
}

/// Writes leave every pod where it stands, under its name, at a version
/// that at most as many moves as there were writes lead to.
pub proof fn lemma_writes_move_version(store: Seq<StoredPod>, writes: Seq<Write>, p: int)
    requires
        store_wf(store),
        0 <= p < store.len(),
        store[p].pod.resource_version is Some,
    ensures
        store_wf(after_writes(store, writes)),
        after_writes(store, writes).len() == store.len(),
        after_writes(store, writes)[p].namespace == store[p].namespace,
        after_writes(store, writes)[p].pod.name == store[p].pod.name,
        exists|steps: nat|
            steps <= writes.len() && after_writes(store, writes)[p].pod.resource_version == Some(
                #[trigger] successor_n(store[p].pod.resource_version->0, steps),
            ),
    decreases writes.len(),
{
    let version = store[p].pod.resource_version->0;
    if writes.len() == 0 {
        assert(successor_n(version, 0) == version);
    } else {
        let front = writes.drop_last();
        lemma_writes_move_version(store, front, p);
        let before = after_writes(store, front);
        let steps = choose|steps: nat|
            steps <= front.len() && before[p].pod.resource_version == Some(
                #[trigger] successor_n(version, steps),
            );
        lemma_write_moves_version(before, writes.last(), p);
        let after = after_writes(store, writes);
        if after[p] == before[p] {
            assert(after[p].pod.resource_version == Some(successor_n(version, steps)));
        } else {
            assert(successor_n(version, steps + 1) == successor(successor_n(version, steps)));
            assert(after[p].pod.resource_version == Some(successor_n(version, steps + 1)));
        }
    }
}

/// Writes may be taken in two parts.
pub proof fn lemma_writes_in_parts(store: Seq<StoredPod>, writes: Seq<Write>, k: int)
    requires
        0 <= k <= writes.len(),
    ensures
        after_writes(store, writes) == after_writes(
            after_writes(store, writes.take(k)),
            writes.skip(k),
        ),
    decreases writes.len(),
{
    if k == writes.len() {
        assert(writes.take(k) =~= writes);
        assert(writes.skip(k) =~= Seq::<Write>::empty());
    } else {
        let front = writes.drop_last();
        lemma_writes_in_parts(store, front, k);
        assert(front.take(k) =~= writes.take(k));
        assert(writes.skip(k).drop_last() =~= front.skip(k));
        assert(writes.skip(k).last() == writes.last());
    }
}

/// One winner for each version. In a row of fewer than 2^64 writes, let
/// two writes address the same pod and expect the same version. If the
/// earlier one goes through, the later one is refused as a version conflict
/// and changes nothing.
pub proof fn lemma_one_winner_per_version(
    store: Seq<StoredPod>,
    writes: Seq<Write>,
    i: int,
    j: int,
)
    requires
        store_wf(store),
        writes.len() <= u64::MAX,
        0 <= i < j < writes.len(),
        writes[i].namespace == writes[j].namespace,
        writes[i].name == writes[j].name,
        writes[i].expected == writes[j].expected,
        answer_to(after_writes(store, writes.take(i)), writes[i]) is Ok,
    ensures
        answer_to(after_writes(store, writes.take(j)), writes[j]) is Err,
        answer_to(after_writes(store, writes.take(j)), writes[j])->Err_0.is_version_conflict(),
        after_write(after_writes(store, writes.take(j)), writes[j]) == after_writes(
            store,
            writes.take(j),
        ),
{
    let first = writes[i];
    let second = writes[j];
    let expected = first.expected;
    let met = after_writes(store, writes.take(i));
    // The earlier write finds the pod at the version it expects.
    lemma_writes_keep_shape(store, writes.take(i));
    let p = find(met, first.namespace, first.name)->0;
    assert(holds(met, first.namespace, first.name, p));
    assert(met[p].pod.resource_version == Some(expected));
    // It leaves the pod at the next version.
    let won = after_write(met, first);
    lemma_write_moves_version(met, first, p);
    assert(won[p].pod.resource_version == Some(successor(expected)));
    assert(writes.take(i + 1).drop_last() =~= writes.take(i));
    assert(writes.take(i + 1).last() == first);
    assert(won == after_writes(store, writes.take(i + 1)));
    // The writes in between move the version further on, but not all the
    // way round.
    let between = writes.take(j).skip(i + 1);
    lemma_writes_in_parts(store, writes.take(j), i + 1);
    assert(writes.take(j).take(i + 1) =~= writes.take(i + 1));
    let seen = after_writes(store, writes.take(j));
    assert(seen == after_writes(won, between));
    lemma_writes_move_version(won, between, p);
    let steps = choose|steps: nat|
        steps <= between.len() && seen[p].pod.resource_version == Some(
            #[trigger] successor_n(successor(expected), steps),
        );
    lemma_successor_n_shift(expected, steps);
    lemma_successor_n_differs(expected, steps + 1);
    // So the later write expects a version that is gone.
    assert(holds(seen, second.namespace, second.name, p));
    lemma_find_unique(seen, second.namespace, second.name, p);
    lemma_stale_write_is_refused(
        seen,
        second.namespace,
        second.name,
        second.delta,
        second.expected,
        p,
    );
}

} // verus!
