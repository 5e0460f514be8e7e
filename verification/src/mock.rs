//! An in-memory pod directory.
//!
//! It holds its pods itself, so it answers exactly: a listing is the pods
//! that match, in the order in which they came; a write goes through if and
//! only if the expected resource version is the stored one, and then moves
//! the version on.
use crate::error::{missing_version, ApiError, ApiErrorView, ApiResult};
use crate::labels::{apply_pairs, pair_views, LabelPair, Labels};
use crate::pod::{Pod, PodView};
use crate::selector::{matches_selector, selector_matches};
use crate::traits::PodOperations;
use crate::version::{lemma_successor_differs, next_version, successor};
use vstd::prelude::*;
use vstd::string::*;

verus! {

/// A pod as the directory holds it: under a namespace.
pub ghost struct StoredPod {
    pub namespace: Seq<char>,
    pub pod: PodView,
}

/// Entry `i` of `store` is the pod `name` of `namespace`.
pub open spec fn holds(store: Seq<StoredPod>, namespace: Seq<char>, name: Seq<char>, i: int) -> bool {
    &&& 0 <= i < store.len()
    &&& store[i].namespace == namespace
    &&& store[i].pod.name == Some(name)
}

/// Every stored pod has a name, and no two share namespace and name.
pub open spec fn store_wf(store: Seq<StoredPod>) -> bool {
    &&& forall|i: int| 0 <= i < store.len() ==> (#[trigger] store[i]).pod.name is Some
    &&& forall|i: int, j: int|
        0 <= i < j < store.len() ==> !(store[i].namespace == store[j].namespace
            && store[i].pod.name == store[j].pod.name)
}

/// Where the pod `name` of `namespace` stands in `store`.
pub open spec fn find(store: Seq<StoredPod>, namespace: Seq<char>, name: Seq<char>) -> Option<int> {
    if exists|i: int| holds(store, namespace, name, i) {
        Some(choose|i: int| holds(store, namespace, name, i))
    } else {
        None
    }
}

/// Whether a listing of `namespace` by `selector` shows `entry`: it stands
/// in the namespace and its labels satisfy the selector. A pod without
/// labels is a pod with no label.
pub open spec fn is_listed(entry: StoredPod, namespace: Seq<char>, selector: Seq<char>) -> bool {
    &&& entry.namespace == namespace
    &&& selector_matches(entry.pod.labels_or_empty(), selector)
}

/// A selector without a well-formed pair, the empty one among them, shows
/// every pod of the namespace.
pub proof fn lemma_unconstrained_selector_lists_namespace(
    entry: StoredPod,
    namespace: Seq<char>,
    selector: Seq<char>,
)
    requires
        !selector.contains(','),
        !selector.contains('='),
    ensures
        is_listed(entry, namespace, selector) <==> entry.namespace == namespace,
{
    crate::selector::lemma_selector_without_pair_matches_all(
        entry.pod.labels_or_empty(),
        selector,
    );
}

/// The pods that a listing of `namespace` by `selector` shows, in the
/// order of the store.
pub open spec fn listing(store: Seq<StoredPod>, namespace: Seq<char>, selector: Seq<char>) -> Seq<
    PodView,
>
    decreases store.len(),
{
    if store.len() == 0 {
        Seq::empty()
    } else {
        let before = listing(store.drop_last(), namespace, selector);
        if is_listed(store.last(), namespace, selector) {
            before.push(store.last().pod)
        } else {
            before
        }
    }
}

/// The failure that reports an absent pod.
pub open spec fn not_found(namespace: Seq<char>, name: Seq<char>) -> ApiErrorView {
    ApiErrorView::Kubernetes("Pod not found: "@ + namespace + "/"@ + name)
}

/// The failure that refuses a write whose expected version is not the
/// stored one.
pub open spec fn version_mismatch(expected: Seq<char>, current: Seq<char>) -> ApiErrorView {
    ApiErrorView::Kubernetes(
        "Resource version mismatch: expected "@ + expected + ", got "@ + current,
    )
}

/// The answer to a read of the pod `name` of `namespace`.
pub open spec fn lookup(store: Seq<StoredPod>, namespace: Seq<char>, name: Seq<char>) -> Result<
    PodView,
    ApiErrorView,
> {
    match find(store, namespace, name) {
        Some(i) => Ok(store[i].pod),
        None => Err(not_found(namespace, name)),
    }
}

/// `pod` after a write of `delta`: the labels merged, the version moved on.
pub open spec fn patched(pod: PodView, delta: Seq<LabelPair>) -> PodView {
    PodView {
        labels: Some(apply_pairs(pod.labels_or_empty(), delta)),
        resource_version: Some(successor(pod.resource_version->0)),
        ..pod
    }
}

/// The answer to a write of `delta` to the pod `name` of `namespace` that
/// expects the version `expected`.
pub open spec fn patch_answer(
    store: Seq<StoredPod>,
    namespace: Seq<char>,
    name: Seq<char>,
    delta: Seq<LabelPair>,
    expected: Seq<char>,
) -> Result<PodView, ApiErrorView> {
    match find(store, namespace, name) {
        None => Err(not_found(namespace, name)),
        Some(i) => match store[i].pod.resource_version {
            None => Err(missing_version()),
            Some(current) => if current == expected {
                Ok(patched(store[i].pod, delta))
            } else {
                Err(version_mismatch(expected, current))
            },
        },
    }
}

/// The store after that write: the pod replaced by the answer if the write
/// went through, and nothing changed if it did not.
pub open spec fn patch_effect(
    store: Seq<StoredPod>,
    namespace: Seq<char>,
    name: Seq<char>,
    delta: Seq<LabelPair>,
    expected: Seq<char>,
) -> Seq<StoredPod> {
    match (find(store, namespace, name), patch_answer(store, namespace, name, delta, expected)) {
        (Some(i), Ok(pod)) => store.update(i, StoredPod { namespace, pod }),
        _ => store,
    }
}

/// The store after `entry` was added: in the place of the pod of the same
/// namespace and name if there is one, at the end otherwise.
pub open spec fn put(store: Seq<StoredPod>, entry: StoredPod) -> Seq<StoredPod> {
    match find(store, entry.namespace, entry.pod.name->0) {
        Some(i) => store.update(i, entry),
        None => store.push(entry),
    }
}

/// In a well-formed store a pod is found where it stands.
pub proof fn lemma_find_unique(store: Seq<StoredPod>, namespace: Seq<char>, name: Seq<char>, i: int)
    requires
        store_wf(store),
        holds(store, namespace, name, i),
    ensures
        find(store, namespace, name) == Some(i),
{
    let j = choose|j: int| holds(store, namespace, name, j);
    assert(holds(store, namespace, name, j));
    if i < j {
        assert(!(store[i].namespace == store[j].namespace && store[i].pod.name
            == store[j].pod.name));
    } else if j < i {
        assert(!(store[j].namespace == store[i].namespace && store[j].pod.name
            == store[i].pod.name));
    }
}

/// Replacing a pod by one of the same name keeps the store well-formed.
pub proof fn lemma_update_keeps_wf(store: Seq<StoredPod>, i: int, entry: StoredPod)
    requires
        store_wf(store),
        0 <= i < store.len(),
        entry.namespace == store[i].namespace,
        entry.pod.name == store[i].pod.name,
    ensures
        store_wf(store.update(i, entry)),
{
    let after = store.update(i, entry);
    assert forall|a: int, b: int| 0 <= a < b < after.len() implies !(after[a].namespace
        == after[b].namespace && after[a].pod.name == after[b].pod.name) by {
        assert(after[a].namespace == store[a].namespace && after[a].pod.name == store[a].pod.name);
        assert(after[b].namespace == store[b].namespace && after[b].pod.name == store[b].pod.name);
    }
    assert forall|a: int| 0 <= a < after.len() implies (#[trigger] after[a]).pod.name is Some by {
        assert(store[a].pod.name is Some);
    }
}

/// A write keeps the store well-formed.
pub proof fn lemma_patch_keeps_wf(
    store: Seq<StoredPod>,
    namespace: Seq<char>,
    name: Seq<char>,
    delta: Seq<LabelPair>,
    expected: Seq<char>,
)
    requires
        store_wf(store),
    ensures
        store_wf(patch_effect(store, namespace, name, delta, expected)),
{
    match (find(store, namespace, name), patch_answer(store, namespace, name, delta, expected)) {
        (Some(i), Ok(pod)) => {
            assert(holds(store, namespace, name, i));
            lemma_update_keeps_wf(store, i, StoredPod { namespace, pod });
        },
        _ => {},
    }
}

/// A refused write reports a version conflict.
pub proof fn lemma_mismatch_is_conflict(expected: Seq<char>, current: Seq<char>)
    ensures
        version_mismatch(expected, current).is_version_conflict(),
{
    reveal_strlit("Resource version mismatch: expected ");
    reveal_strlit("version mismatch");
    let text = "Resource version mismatch: expected "@ + expected + ", got "@ + current;
    assert(text.subrange(9, 25) =~= "version mismatch"@);
    assert(crate::text::occurs_at(text, "version mismatch"@, 9));
}

/// A write with a version that is not the stored one is refused as a
/// conflict and changes nothing.
pub proof fn lemma_stale_write_is_refused(
    store: Seq<StoredPod>,
    namespace: Seq<char>,
    name: Seq<char>,
    delta: Seq<LabelPair>,
    stale: Seq<char>,
    i: int,
)
    requires
        store_wf(store),
        holds(store, namespace, name, i),
        store[i].pod.resource_version is Some,
        store[i].pod.resource_version != Some(stale),
    ensures
        patch_answer(store, namespace, name, delta, stale) is Err,
        patch_answer(store, namespace, name, delta, stale)->Err_0.is_version_conflict(),
        patch_effect(store, namespace, name, delta, stale) == store,
{
    lemma_find_unique(store, namespace, name, i);
    lemma_mismatch_is_conflict(stale, store[i].pod.resource_version->0);
}

/// A write that went through has superseded the version it expected: the
/// same write again is refused as a conflict and changes nothing.
pub proof fn lemma_write_supersedes_version(
    store: Seq<StoredPod>,
    namespace: Seq<char>,
    name: Seq<char>,
    delta: Seq<LabelPair>,
    expected: Seq<char>,
)
    requires
        store_wf(store),
        patch_answer(store, namespace, name, delta, expected) is Ok,
    ensures
        ({
            let after = patch_effect(store, namespace, name, delta, expected);
            &&& patch_answer(after, namespace, name, delta, expected) is Err
            &&& patch_answer(after, namespace, name, delta, expected)->Err_0.is_version_conflict()
            &&& patch_effect(after, namespace, name, delta, expected) == after
        }),
{
    let i = find(store, namespace, name)->0;
    assert(holds(store, namespace, name, i));
    let after = patch_effect(store, namespace, name, delta, expected);
    lemma_patch_keeps_wf(store, namespace, name, delta, expected);
    assert(holds(after, namespace, name, i));
    lemma_successor_differs(expected);
    lemma_stale_write_is_refused(after, namespace, name, delta, expected, i);
}

struct Slot {
    namespace: String,
    pod: Pod,
}

impl View for Slot {
    type V = StoredPod;

    closed spec fn view(&self) -> StoredPod {
        StoredPod { namespace: self.namespace@, pod: self.pod@ }
    }
}

/// A pod directory that lives in memory, for use where no cluster is at
/// hand.
pub struct MockPodOperations {
    slots: Vec<Slot>,
}

impl View for MockPodOperations {
    type V = Seq<StoredPod>;

    closed spec fn view(&self) -> Seq<StoredPod> {
        self.slots@.map_values(|slot: Slot| slot@)
    }
}

/// `prefix`, then `a`, `between` and `b`.
fn compose(prefix: &str, a: &str, between: &str, b: &str) -> (text: String)
    ensures
        text@ == prefix@ + a@ + between@ + b@,
{
    let mut text = String::from_str(prefix);
    text.append(a);
    text.append(between);
    text.append(b);
    text
}

impl MockPodOperations {
    #[verifier::type_invariant]
    spec fn well_formed(self) -> bool {
        store_wf(self@)
    }

    /// A directory without pods.
    pub fn new() -> (directory: Self)
        ensures
            directory@ == Seq::<StoredPod>::empty(),
    {
        let directory = MockPodOperations { slots: Vec::new() };
        assert(directory@ =~= Seq::<StoredPod>::empty());
        directory
    }

    fn position(&self, namespace: &str, name: &str) -> (at: Option<usize>)
        ensures
            match at {
                Some(i) => holds(self@, namespace@, name@, i as int),
                None => forall|i: int| !holds(self@, namespace@, name@, i),
            },
    {
        let wanted_namespace = namespace.to_owned();
        let wanted_name = name.to_owned();
        let mut i: usize = 0;
        while i < self.slots.len()
            invariant
                i <= self.slots.len(),
                wanted_namespace@ == namespace@,
                wanted_name@ == name@,
                forall|k: int| 0 <= k < i ==> !holds(self@, namespace@, name@, k),
            decreases self.slots.len() - i,
        {
            let slot = &self.slots[i];
            assert(self@[i as int] == slot@);
            let same_name = match &slot.pod.name {
                Some(n) => *n == wanted_name,
                None => false,
            };
            if slot.namespace == wanted_namespace && same_name {
                return Some(i);
            }
            i += 1;
        }
        None
    }

    /// Adds `pod` to `namespace`, in the place of the pod of the same name
    /// if the namespace has one.
    pub fn add_pod(&mut self, namespace: &str, pod: Pod)
        requires
            pod.name is Some,
        ensures
            final(self)@ == put(old(self)@, StoredPod { namespace: namespace@, pod: pod@ }),
            store_wf(old(self)@),
            store_wf(final(self)@),
    {
        proof {
            use_type_invariant(&*self);
        }
        let ghost before = self@;
        let ghost entry = StoredPod { namespace: namespace@, pod: pod@ };
        let at = match &pod.name {
            Some(name) => self.position(namespace, name.as_str()),
            None => None,
        };
        let slot = Slot { namespace: namespace.to_owned(), pod };
        let mut slots: Vec<Slot> = Vec::new();
        std::mem::swap(&mut slots, &mut self.slots);
        match at {
            Some(i) => {
                slots.set(i, slot);
                proof {
                    lemma_find_unique(before, entry.namespace, entry.pod.name->0, i as int);
                    lemma_update_keeps_wf(before, i as int, entry);
                    assert(slots@.map_values(|slot: Slot| slot@) =~= before.update(
                        i as int,
                        entry,
                    ));
                }
            },
            None => {
                slots.push(slot);
                proof {
                    let after = before.push(entry);
                    assert(slots@.map_values(|slot: Slot| slot@) =~= after);
                    assert forall|a: int, b: int| 0 <= a < b < after.len() implies !(
                    after[a].namespace == after[b].namespace && after[a].pod.name
                        == after[b].pod.name) by {
                        if b == after.len() - 1 {
                            assert(!holds(before, entry.namespace, entry.pod.name->0, a));
                        } else {
                            assert(after[a] == before[a] && after[b] == before[b]);
                        }
                    }
                    assert forall|a: int| 0 <= a < after.len() implies (
                    #[trigger] after[a]).pod.name is Some by {
                        if a < before.len() {
                            assert(before[a].pod.name is Some);
                        }
                    }
                }
            },
        }
        self.slots = slots;
    }

    /// A pod as a test wants it: named, labelled, at resource version `1`,
    /// without address.
    pub fn create_test_pod(name: &str, namespace: &str, labels: Labels) -> (pod: Pod)
        ensures
            pod@ == (PodView {
                name: Some(name@),
                namespace: Some(namespace@),
                labels: Some(labels@),
                resource_version: Some("1"@),
                pod_ip: None,
            }),
    {
        Pod {
            name: Some(name.to_owned()),
            namespace: Some(namespace.to_owned()),
            labels: Some(labels),
            resource_version: Some(String::from_str("1")),
            pod_ip: None,
        }
    }
}

impl Default for MockPodOperations {
    fn default() -> (directory: Self)
        ensures
            directory@ == Seq::<StoredPod>::empty(),
    {
        MockPodOperations::new()
    }
}

impl PodOperations for MockPodOperations {
    open spec fn list_outcome(
        &self,
        namespace: Seq<char>,
        label_selector: Seq<char>,
        outcome: Result<Seq<PodView>, ApiErrorView>,
    ) -> bool {
        outcome == Ok::<Seq<PodView>, ApiErrorView>(listing(self@, namespace, label_selector))
    }

    open spec fn get_outcome(
        &self,
        namespace: Seq<char>,
        name: Seq<char>,
        outcome: Result<PodView, ApiErrorView>,
    ) -> bool {
        outcome == lookup(self@, namespace, name)
    }

    open spec fn patch_outcome(
        &self,
        after: &Self,
        namespace: Seq<char>,
        name: Seq<char>,
        labels: Seq<LabelPair>,
        resource_version: Seq<char>,
        outcome: Result<PodView, ApiErrorView>,
    ) -> bool {
        &&& outcome == patch_answer(self@, namespace, name, labels, resource_version)
        &&& after@ == patch_effect(self@, namespace, name, labels, resource_version)
    }

    fn list_pods(&self, namespace: &str, label_selector: &str) -> (result: ApiResult<Vec<Pod>>) {
        let wanted = namespace.to_owned();
        let mut pods: Vec<Pod> = Vec::new();
        let mut i: usize = 0;
        assert(self@.take(0) =~= Seq::<StoredPod>::empty());
        while i < self.slots.len()
            invariant
                i <= self.slots.len(),
                wanted@ == namespace@,
                crate::pod::pod_views(pods@) == listing(
                    self@.take(i as int),
                    namespace@,
                    label_selector@,
                ),
            decreases self.slots.len() - i,
        {
            let slot = &self.slots[i];
            assert(self@[i as int] == slot@);
            assert(self@.take(i + 1).drop_last() =~= self@.take(i as int));
            assert(self@.take(i + 1).last() == slot@);
            let shown = slot.namespace == wanted && match &slot.pod.labels {
                Some(labels) => matches_selector(labels, label_selector),
                None => matches_selector(&Labels::new(), label_selector),
            };
            if shown {
                let ghost before = pods@;
                pods.push(slot.pod.clone());
                assert(crate::pod::pod_views(pods@) =~= crate::pod::pod_views(before).push(
                    slot.pod@,
                ));
            }
            i += 1;
        }
        assert(self@.take(self.slots.len() as int) =~= self@);
        Ok(pods)
    }

    fn get_pod(&self, namespace: &str, name: &str) -> (result: ApiResult<Pod>) {
        proof {
            use_type_invariant(self);
        }
        match self.position(namespace, name) {
            Some(i) => {
                proof {
                    lemma_find_unique(self@, namespace@, name@, i as int);
                }
                let slot = &self.slots[i];
                assert(self@[i as int] == slot@);
                Ok(slot.pod.clone())
            },
            None => Err(ApiError::Kubernetes(compose("Pod not found: ", namespace, "/", name))),
        }
    }

    fn patch_pod_labels(
        &mut self,
        namespace: &str,
        name: &str,
        labels: Vec<(String, String)>,
        resource_version: &str,
    ) -> (result: ApiResult<Pod>) {
        proof {
            use_type_invariant(&*self);
        }
        let ghost before = self@;
        let i = match self.position(namespace, name) {
            Some(i) => i,
            None => {
                return Err(
                    ApiError::Kubernetes(compose("Pod not found: ", namespace, "/", name)),
                );
            },
        };
        proof {
            lemma_find_unique(before, namespace@, name@, i as int);
        }
        let slot = &self.slots[i];
        assert(before[i as int] == slot@);
        let current = match &slot.pod.resource_version {
            Some(current) => current,
            None => {
                return Err(ApiError::Internal(String::from_str("Pod missing resource version")));
            },
        };
        let expected = resource_version.to_owned();
        if *current != expected {
            return Err(
                ApiError::Kubernetes(
                    compose(
                        "Resource version mismatch: expected ",
                        resource_version,
                        ", got ",
                        current.as_str(),
                    ),
                ),
            );
        }
        let mut merged = match &slot.pod.labels {
            Some(labels) => labels.clone(),
            None => Labels::new(),
        };
        merged.merge(&labels);
        let updated = Pod {
            name: crate::pod::clone_text(&slot.pod.name),
            namespace: crate::pod::clone_text(&slot.pod.namespace),
            labels: Some(merged),
            resource_version: Some(next_version(current.as_str())),
            pod_ip: crate::pod::clone_text(&slot.pod.pod_ip),
        };
        let stored = Slot { namespace: slot.namespace.clone(), pod: updated.clone() };
        proof {
            assert(updated@ == patched(before[i as int].pod, pair_views(labels@)));
            lemma_update_keeps_wf(before, i as int, stored@);
        }
        let mut slots: Vec<Slot> = Vec::new();
        std::mem::swap(&mut slots, &mut self.slots);
        slots.set(i, stored);
        assert(slots@.map_values(|slot: Slot| slot@) =~= before.update(i as int, stored@));
        self.slots = slots;
        Ok(updated)
    }
}

} // verus!
