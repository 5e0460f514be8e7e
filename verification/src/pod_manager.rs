//! The pool coordinator: leasing a ready pod and giving it back.
//!
//! The pool is whatever the directory lists under the coordinator's
//! selector. A pod is leased by writing `status=busy` to it with the
//! resource version under which it was listed, so of several coordinators
//! that want the same pod the directory lets one through. The others meet a
//! version conflict and go on to the next candidate.
//!
//! What a call returns depends on what the directory answers. The relations
//! [`claim_run`], [`attempt_run`], [`acquire_run`] and [`release_run`] say,
//! over the directory's own account of its answers, which runs a call may
//! take.
use crate::error::{
    missing_ip,
    missing_name,
    missing_version,
    ApiError,
    ApiErrorView,
    ApiResult,
};
use crate::labels::{pair_views, LabelPair};
use crate::pod::{busy_value, pod_views, ready_value, status_key, Pod, PodView};
use crate::shuffle::{is_permutation, shuffled};
use crate::traits::{listing_view, pod_result_view, PodOperations};
use vstd::prelude::*;
use vstd::string::*;

verus! {

/// The labels that a lease writes.
pub open spec fn busy_delta() -> Seq<LabelPair> {
    seq![(status_key(), busy_value())]
}

/// The labels that a release writes.
pub open spec fn ready_delta() -> Seq<LabelPair> {
    seq![(status_key(), ready_value())]
}

/// The name and the resource version under which a write to `pod` is
/// addressed, or the failure that reports which of them the pod lacks.
pub open spec fn write_target(pod: PodView) -> Result<(Seq<char>, Seq<char>), ApiErrorView> {
    match (pod.name, pod.resource_version) {
        (None, _) => Err(missing_name()),
        (Some(_), None) => Err(missing_version()),
        (Some(name), Some(version)) => Ok((name, version)),
    }
}

/// How the attempt to lease candidates ended, as plain values.
pub ghost enum ClaimView {
    Won(PodView),
    Lost,
    Failed(ApiErrorView),
}

/// How the attempt to lease candidates ended.
#[derive(Debug)]
pub enum Claim {
    /// The directory accepted the write; this is the pod as written.
    Won(Pod),
    /// Every write met a version conflict.
    Lost,
    /// A candidate was malformed, or the directory failed otherwise.
    Failed(ApiError),
}

impl View for Claim {
    type V = ClaimView;

    open spec fn view(&self) -> ClaimView {
        match self {
            Claim::Won(pod) => ClaimView::Won(pod@),
            Claim::Lost => ClaimView::Lost,
            Claim::Failed(e) => ClaimView::Failed(e@),
        }
    }
}

/// How one attempt of an acquisition ended, as plain values.
pub ghost enum AttemptView {
    Done(Result<Option<PodView>, ApiErrorView>),
    Retry,
}

/// How one attempt of an acquisition ended.
#[derive(Debug)]
pub enum Attempt {
    /// The acquisition is over, with this result.
    Done(ApiResult<Option<Pod>>),
    /// Every candidate of the listing was lost to a conflict.
    Retry,
}

/// The view of an acquisition's result.
pub open spec fn acquired_view(result: ApiResult<Option<Pod>>) -> Result<
    Option<PodView>,
    ApiErrorView,
> {
    match result {
        Ok(Some(pod)) => Ok(Some(pod@)),
        Ok(None) => Ok(None),
        Err(e) => Err(e@),
    }
}

impl View for Attempt {
    type V = AttemptView;

    open spec fn view(&self) -> AttemptView {
        match self {
            Attempt::Done(result) => AttemptView::Done(acquired_view(*result)),
            Attempt::Retry => AttemptView::Retry,
        }
    }
}

/// What the answer to one lease write means: the pod is won; or it is lost
/// to another coordinator, if the failure is a version conflict; or the
/// directory failed.
pub open spec fn claim_of(answer: Result<PodView, ApiErrorView>) -> ClaimView {
    match answer {
        Ok(pod) => ClaimView::Won(pod),
        Err(e) => if e.is_version_conflict() {
            ClaimView::Lost
        } else {
            ClaimView::Failed(e)
        },
    }
}

/// What the outcome of a batch means for the attempt: a lost batch asks for
/// another listing, anything else ends the acquisition.
pub open spec fn attempt_of(claim: ClaimView) -> AttemptView {
    match claim {
        ClaimView::Won(pod) => AttemptView::Done(Ok(Some(pod))),
        ClaimView::Lost => AttemptView::Retry,
        ClaimView::Failed(e) => AttemptView::Done(Err(e)),
    }
}

/// Leasing the first of `candidates` that can be had takes the directory
/// from `pre` to `post` and ends as `outcome`.
///
/// The candidates are tried in order. A candidate without name or resource
/// version ends the run as a failure, with no write. Otherwise
/// `status=busy` is written to the candidate's name, expecting the
/// candidate's version: a success ends the run with the pod as written, a
/// version conflict passes on to the next candidate, any other failure ends
/// the run. When no candidate is left the batch is lost.
pub open spec fn claim_run<T: PodOperations>(
    pre: T,
    post: T,
    namespace: Seq<char>,
    candidates: Seq<PodView>,
    outcome: ClaimView,
) -> bool
    decreases candidates.len(),
{
    if candidates.len() == 0 {
        post == pre && outcome == ClaimView::Lost
    } else {
        match write_target(candidates.first()) {
            Err(e) => post == pre && outcome == ClaimView::Failed(e),
            Ok(target) => exists|mid: T, answer: Result<PodView, ApiErrorView>|
                #![trigger pre.patch_outcome(&mid, namespace, target.0, busy_delta(), target.1, answer)]
                pre.patch_outcome(&mid, namespace, target.0, busy_delta(), target.1, answer) && (
                match claim_of(answer) {
                    ClaimView::Lost => claim_run(
                        mid,
                        post,
                        namespace,
                        candidates.drop_first(),
                        outcome,
                    ),
                    decided => post == mid && outcome == decided,
                }),
        }
    }
}

/// One attempt takes the directory from `pre` to `post` and ends as
/// `outcome`.
///
/// The pods of `namespace` that satisfy `selector` are listed. A failed
/// listing ends the acquisition with that failure, an empty one ends it
/// with no pod. Otherwise the listed pods are tried in some order, as
/// [`claim_run`] says.
pub open spec fn attempt_run<T: PodOperations>(
    pre: T,
    post: T,
    namespace: Seq<char>,
    selector: Seq<char>,
    outcome: AttemptView,
) -> bool {
    exists|listed: Result<Seq<PodView>, ApiErrorView>| #[trigger]
        pre.list_outcome(namespace, selector, listed) && match listed {
            Err(e) => post == pre && outcome == AttemptView::Done(Err(e)),
            Ok(pods) => if pods.len() == 0 {
                post == pre && outcome == AttemptView::Done(Ok(None))
            } else {
                exists|order: Seq<PodView>, claim: ClaimView|
                    is_permutation(order, pods) && #[trigger] claim_run(
                        pre,
                        post,
                        namespace,
                        order,
                        claim,
                    ) && outcome == attempt_of(claim)
            },
        }
}

/// An acquisition of at most `attempts` attempts takes the directory from
/// `pre` to `post` and returns `result`.
///
/// Attempts follow each other, as [`attempt_run`] says, until one ends the
/// acquisition. When none is left the acquisition ends with no pod.
pub open spec fn acquire_run<T: PodOperations>(
    pre: T,
    post: T,
    namespace: Seq<char>,
    selector: Seq<char>,
    attempts: nat,
    result: Result<Option<PodView>, ApiErrorView>,
) -> bool
    decreases attempts,
{
    if attempts == 0 {
        post == pre && result == Ok::<Option<PodView>, ApiErrorView>(None)
    } else {
        exists|mid: T, outcome: AttemptView| #[trigger]
            attempt_run(pre, mid, namespace, selector, outcome) && match outcome {
                AttemptView::Done(r) => post == mid && result == r,
                AttemptView::Retry => acquire_run(
                    mid,
                    post,
                    namespace,
                    selector,
                    (attempts - 1) as nat,
                    result,
                ),
            }
    }
}

/// Giving `pod` back takes the directory from `pre` to `post` and returns
/// `result`.
///
/// A pod without name or resource version fails the release, with no
/// write. Otherwise `status=ready` is written to the pod's name, expecting
/// the pod's version, and the release fails as that write does.
pub open spec fn release_run<T: PodOperations>(
    pre: T,
    post: T,
    namespace: Seq<char>,
    pod: PodView,
    result: Result<(), ApiErrorView>,
) -> bool {
    match write_target(pod) {
        Err(e) => post == pre && result == Err::<(), ApiErrorView>(e),
        Ok(target) => exists|answer: Result<PodView, ApiErrorView>|
            #![trigger pre.patch_outcome(&post, namespace, target.0, ready_delta(), target.1, answer)]
            pre.patch_outcome(&post, namespace, target.0, ready_delta(), target.1, answer)
                && result == (match answer {
                Ok(_) => Ok::<(), ApiErrorView>(()),
                Err(e) => Err(e),
            }),
    }
}

/// The view of a release's result.
pub open spec fn released_view(result: ApiResult<()>) -> Result<(), ApiErrorView> {
    match result {
        Ok(_) => Ok(()),
        Err(e) => Err(e@),
    }
}

/// The address of `pod`, or the failure that reports its absence.
pub open spec fn ip_of(pod: PodView) -> Result<Seq<char>, ApiErrorView> {
    match pod.pod_ip {
        Some(ip) => Ok(ip),
        None => Err(missing_ip()),
    }
}

/// The view of an address lookup's result.
pub open spec fn ip_view(result: ApiResult<String>) -> Result<Seq<char>, ApiErrorView> {
    match result {
        Ok(ip) => Ok(ip@),
        Err(e) => Err(e@),
    }
}

/// Decides [`claim_of`].
pub fn claim_decision(answer: ApiResult<Pod>) -> (claim: Claim)
    ensures
        claim@ == claim_of(pod_result_view(answer)),
{
    match answer {
        Ok(pod) => Claim::Won(pod),
        Err(e) => if e.is_version_conflict() {
            Claim::Lost
        } else {
            Claim::Failed(e)
        },
    }
}

/// Decides [`attempt_of`].
pub fn attempt_decision(claim: Claim) -> (attempt: Attempt)
    ensures
        attempt@ == attempt_of(claim@),
{
    match claim {
        Claim::Won(pod) => Attempt::Done(Ok(Some(pod))),
        Claim::Lost => Attempt::Retry,
        Claim::Failed(e) => Attempt::Done(Err(e)),
    }
}

/// Decides [`write_target`].
pub fn target_of(pod: &Pod) -> (target: Result<(&String, &String), ApiError>)
    ensures
        match target {
            Ok((name, version)) => write_target(pod@) == Ok::<
                (Seq<char>, Seq<char>),
                ApiErrorView,
            >((name@, version@)),
            Err(e) => write_target(pod@) == Err::<(Seq<char>, Seq<char>), ApiErrorView>(e@),
        },
{
    let name = match &pod.name {
        Some(name) => name,
        None => {
            return Err(ApiError::Internal(String::from_str("Pod missing name")));
        },
    };
    let version = match &pod.resource_version {
        Some(version) => version,
        None => {
            return Err(ApiError::Internal(String::from_str("Pod missing resource version")));
        },
    };
    Ok((name, version))
}

/// The one label `status=value`.
fn status_label(value: &str) -> (labels: Vec<(String, String)>)
    ensures
        pair_views(labels@) == seq![(status_key(), value@)],
{
    let mut labels: Vec<(String, String)> = Vec::new();
    labels.push((String::from_str("status"), String::from_str(value)));
    assert(pair_views(labels@) =~= seq![(status_key(), value@)]);
    labels
}

/// A coordinator of the pool of pods that `selector` lists in `namespace`
/// of the directory `pod_ops`.
pub struct PodManager<T: PodOperations> {
    pub pod_ops: T,
    pub namespace: String,
    pub selector: String,
    pub max_retries: u32,
}

impl<T: PodOperations> PodManager<T> {
    /// A coordinator that makes up to five attempts for each acquisition.
    pub fn new(pod_ops: T, namespace: String, selector: String) -> (manager: Self)
        ensures
            manager.pod_ops == pod_ops,
            manager.namespace == namespace,
            manager.selector == selector,
            manager.max_retries == 5,
    {
        PodManager { pod_ops, namespace, selector, max_retries: 5 }
    }

    /// Tries `candidates` in order until one is leased.
    pub fn claim_first(&mut self, candidates: &Vec<Pod>) -> (claim: Claim)
        ensures
            final(self).namespace == old(self).namespace,
            final(self).selector == old(self).selector,
            final(self).max_retries == old(self).max_retries,
            claim_run(
                old(self).pod_ops,
                final(self).pod_ops,
                old(self).namespace@,
                pod_views(candidates@),
                claim@,
            ),
    {
        let ghost start = self.pod_ops;
        let ghost namespace = self.namespace@;
        let ghost views = pod_views(candidates@);
        let mut i: usize = 0;
        assert(views.skip(0) =~= views);
        while i < candidates.len()
            invariant
                i <= candidates.len(),
                views == pod_views(candidates@),
                self.namespace == old(self).namespace,
                self.selector == old(self).selector,
                self.max_retries == old(self).max_retries,
                namespace == self.namespace@,
                start == old(self).pod_ops,
                forall|post: T, outcome: ClaimView| #[trigger]
                    claim_run(self.pod_ops, post, namespace, views.skip(i as int), outcome)
                        ==> claim_run(start, post, namespace, views, outcome),
            decreases candidates.len() - i,
        {
            let ghost before = self.pod_ops;
            let ghost rest = views.skip(i as int);
            assert(rest.first() == candidates@[i as int]@);
            assert(rest.drop_first() =~= views.skip(i + 1));
            let (name, version) = match target_of(&candidates[i]) {
                Ok(target) => target,
                Err(e) => {
                    assert(claim_run(before, before, namespace, rest, ClaimView::Failed(e@)));
                    return Claim::Failed(e);
                },
            };
            let answer = self.pod_ops.patch_pod_labels(
                self.namespace.as_str(),
                name.as_str(),
                status_label("busy"),
                version.as_str(),
            );
            let ghost answer_view = pod_result_view(answer);
            let ghost target = write_target(rest.first())->Ok_0;
            assert(target == (name@, version@));
            assert(before.patch_outcome(
                &self.pod_ops,
                namespace,
                target.0,
                busy_delta(),
                target.1,
                answer_view,
            ));
            match claim_decision(answer) {
                Claim::Lost => {
                    assert forall|post: T, outcome: ClaimView| #[trigger]
                        claim_run(
                            self.pod_ops,
                            post,
                            namespace,
                            views.skip(i + 1),
                            outcome,
                        ) implies claim_run(start, post, namespace, views, outcome) by {
                        assert(claim_run(before, post, namespace, rest, outcome));
                    }
                },
                decided => {
                    assert(claim_run(before, self.pod_ops, namespace, rest, decided@));
                    return decided;
                },
            }
            i += 1;
        }
        assert(views.skip(candidates.len() as int) =~= Seq::<PodView>::empty());
        assert(claim_run(
            self.pod_ops,
            self.pod_ops,
            namespace,
            views.skip(candidates.len() as int),
            ClaimView::Lost,
        ));
        Claim::Lost
    }

    /// Lists the pool and tries what it shows, in a random order.
    pub fn attempt(&mut self) -> (outcome: Attempt)
        ensures
            final(self).namespace == old(self).namespace,
            final(self).selector == old(self).selector,
            final(self).max_retries == old(self).max_retries,
            attempt_run(
                old(self).pod_ops,
                final(self).pod_ops,
                old(self).namespace@,
                old(self).selector@,
                outcome@,
            ),
    {
        let listed = self.pod_ops.list_pods(self.namespace.as_str(), self.selector.as_str());
        let ghost listed_view = listing_view(listed);
        assert(self.pod_ops.list_outcome(self.namespace@, self.selector@, listed_view));
        let pods = match listed {
            Ok(pods) => pods,
            Err(e) => {
                return Attempt::Done(Err(e));
            },
        };
        if pods.len() == 0 {
            return Attempt::Done(Ok(None));
        }
        let order = shuffled(pods);
        let claim = self.claim_first(&order);
        attempt_decision(claim)
    }

    /// Leases a pod of the pool, if one can be had.
    ///
    /// `Ok(None)` says that none could: the pool was empty, or in each of
    /// `max_retries` attempts every candidate was lost to another
    /// coordinator.
    pub fn acquire_pod(&mut self) -> (result: ApiResult<Option<Pod>>)
        ensures
            final(self).namespace == old(self).namespace,
            final(self).selector == old(self).selector,
            final(self).max_retries == old(self).max_retries,
            acquire_run(
                old(self).pod_ops,
                final(self).pod_ops,
                old(self).namespace@,
                old(self).selector@,
                old(self).max_retries as nat,
                acquired_view(result),
            ),
    {
        let ghost start = self.pod_ops;
        let ghost namespace = self.namespace@;
        let ghost selector = self.selector@;
        let mut attempt: u32 = 0;
        while attempt < self.max_retries
            invariant
                attempt <= self.max_retries,
                self.namespace == old(self).namespace,
                self.selector == old(self).selector,
                self.max_retries == old(self).max_retries,
                namespace == self.namespace@,
                selector == self.selector@,
                start == old(self).pod_ops,
                forall|post: T, result: Result<Option<PodView>, ApiErrorView>| #[trigger]
                    acquire_run(
                        self.pod_ops,
                        post,
                        namespace,
                        selector,
                        (self.max_retries - attempt) as nat,
                        result,
                    ) ==> acquire_run(
                        start,
                        post,
                        namespace,
                        selector,
                        self.max_retries as nat,
                        result,
                    ),
            decreases self.max_retries - attempt,
        {
            let ghost before = self.pod_ops;
            let ghost left = (self.max_retries - attempt) as nat;
            match self.attempt() {
                Attempt::Done(result) => {
                    assert(attempt_run(
                        before,
                        self.pod_ops,
                        namespace,
                        selector,
                        AttemptView::Done(acquired_view(result)),
                    ));
                    assert(acquire_run(
                        before,
                        self.pod_ops,
                        namespace,
                        selector,
                        left,
                        acquired_view(result),
                    ));
                    return result;
                },
                Attempt::Retry => {
                    assert(attempt_run(
                        before,
                        self.pod_ops,
                        namespace,
                        selector,
                        AttemptView::Retry,
                    ));
                    assert forall|post: T, result: Result<Option<PodView>, ApiErrorView>|
                     #[trigger]
                        acquire_run(
                            self.pod_ops,
                            post,
                            namespace,
                            selector,
                            (self.max_retries - (attempt + 1)) as nat,
                            result,
                        ) implies acquire_run(
                        start,
                        post,
                        namespace,
                        selector,
                        self.max_retries as nat,
                        result,
                    ) by {
                        assert((left - 1) as nat == (self.max_retries - (attempt + 1)) as nat);
                        assert(acquire_run(before, post, namespace, selector, left, result));
                    }
                },
            }
            attempt += 1;
        }
        assert(acquire_run(
            self.pod_ops,
            self.pod_ops,
            namespace,
            selector,
            (self.max_retries - attempt) as nat,
            Ok::<Option<PodView>, ApiErrorView>(None),
        ));
        Ok(None)
    }

    /// Gives a leased pod back to the pool.
    pub fn release_pod(&mut self, pod: &Pod) -> (result: ApiResult<()>)
        ensures
            final(self).namespace == old(self).namespace,
            final(self).selector == old(self).selector,
            final(self).max_retries == old(self).max_retries,
            release_run(
                old(self).pod_ops,
                final(self).pod_ops,
                old(self).namespace@,
                pod@,
                released_view(result),
            ),
    {
        let ghost before = self.pod_ops;
        let (name, version) = match target_of(pod) {
            Ok(target) => target,
            Err(e) => {
                return Err(e);
            },
        };
        let answer = self.pod_ops.patch_pod_labels(
            self.namespace.as_str(),
            name.as_str(),
            status_label("ready"),
            version.as_str(),
        );
        let ghost target = write_target(pod@)->Ok_0;
        assert(target == (name@, version@));
        assert(before.patch_outcome(
            &self.pod_ops,
            self.namespace@,
            target.0,
            ready_delta(),
            target.1,
            pod_result_view(answer),
        ));
        match answer {
            Ok(_) => Ok(()),
            Err(e) => Err(e),
        }
    }

    /// The address under which `pod` takes requests.
    pub fn get_pod_ip(pod: &Pod) -> (result: ApiResult<String>)
        ensures
            ip_view(result) == ip_of(pod@),
    {
        match &pod.pod_ip {
            Some(ip) => Ok(ip.clone()),
            None => Err(ApiError::Internal(String::from_str("Pod missing IP address"))),
        }
    }
}

impl<T: PodOperations + Clone> Clone for PodManager<T> {
    /// A coordinator of the same pool, on a copy of the directory handle.
    fn clone(&self) -> (copy: Self)
        ensures
            copy.namespace@ == self.namespace@,
            copy.selector@ == self.selector@,
            copy.max_retries == self.max_retries,
    {
        PodManager {
            pod_ops: self.pod_ops.clone(),
            namespace: self.namespace.clone(),
            selector: self.selector.clone(),
            max_retries: self.max_retries,
        }
    }
}

} // verus!
