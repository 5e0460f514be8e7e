//! What holds of every acquisition, whatever the directory answers.
//!
//! A pod is only ever returned as the directory's own answer to a lease
//! write that it accepted. A version conflict never leaves an acquisition:
//! a failure that comes out is a failed listing, a malformed candidate, or
//! a failed write that is no conflict.
use crate::error::{missing_name, missing_version, ApiErrorView};
use crate::pod::PodView;
use crate::pod_manager::{
    acquire_run,
    attempt_run,
    busy_delta,
    claim_run,
    write_target,
    AttemptView,
    ClaimView,
};
use crate::shuffle::is_permutation;
use crate::traits::PodOperations;
use vstd::prelude::*;

verus! {

/// Some lease write, in some state of the directory, was answered with
/// `answer` and left the directory as `post`.
pub open spec fn lease_answered<T: PodOperations>(
    post: T,
    namespace: Seq<char>,
    answer: Result<PodView, ApiErrorView>,
) -> bool {
    exists|before: T, name: Seq<char>, version: Seq<char>| #[trigger]
        before.patch_outcome(&post, namespace, name, busy_delta(), version, answer)
}

/// Some listing, in some state of the directory, failed with `failure`.
pub open spec fn listing_failed<T: PodOperations>(
    namespace: Seq<char>,
    selector: Seq<char>,
    failure: ApiErrorView,
) -> bool {
    exists|state: T| #[trigger]
        state.list_outcome(namespace, selector, Err::<Seq<PodView>, ApiErrorView>(failure))
}

/// `failure` is one that a batch may end with: a candidate lacked its name
/// or its version, or a lease write failed otherwise than by a conflict.
pub open spec fn claim_failure<T: PodOperations>(
    post: T,
    namespace: Seq<char>,
    failure: ApiErrorView,
) -> bool {
    ||| failure == missing_name()
    ||| failure == missing_version()
    ||| !failure.is_version_conflict() && lease_answered(
        post,
        namespace,
        Err::<PodView, ApiErrorView>(failure),
    )
}

/// What the end of a batch says of what went before.
pub open spec fn claim_explained<T: PodOperations>(
    post: T,
    namespace: Seq<char>,
    outcome: ClaimView,
) -> bool {
    match outcome {
        ClaimView::Won(pod) => lease_answered(post, namespace, Ok::<PodView, ApiErrorView>(pod)),
        ClaimView::Lost => true,
        ClaimView::Failed(failure) => claim_failure(post, namespace, failure),
    }
}

/// What the result of an acquisition says of what went before.
pub open spec fn acquisition_explained<T: PodOperations>(
    post: T,
    namespace: Seq<char>,
    selector: Seq<char>,
    result: Result<Option<PodView>, ApiErrorView>,
) -> bool {
    match result {
        Ok(Some(pod)) => lease_answered(post, namespace, Ok::<PodView, ApiErrorView>(pod)),
        Ok(None) => true,
        Err(failure) => listing_failed::<T>(namespace, selector, failure) || claim_failure(
            post,
            namespace,
            failure,
        ),
    }
}

/// A batch is won only by an accepted lease write, and fails only as
/// [`claim_failure`] says.
pub proof fn lemma_claim_explained<T: PodOperations>(
    pre: T,
    post: T,
    namespace: Seq<char>,
    candidates: Seq<PodView>,
    outcome: ClaimView,
)
    requires
        claim_run(pre, post, namespace, candidates, outcome),
    ensures
        claim_explained(post, namespace, outcome),
    decreases candidates.len(),
{
    if candidates.len() > 0 {
        match write_target(candidates.first()) {
            Err(e) => {},
            Ok(target) => {
                let (mid, answer) = choose|mid: T, answer: Result<PodView, ApiErrorView>|
                    #![trigger pre.patch_outcome(&mid, namespace, target.0, busy_delta(), target.1, answer)]
                    pre.patch_outcome(&mid, namespace, target.0, busy_delta(), target.1, answer)
                        && (match crate::pod_manager::claim_of(answer) {
                        ClaimView::Lost => claim_run(
                            mid,
                            post,
                            namespace,
                            candidates.drop_first(),
                            outcome,
                        ),
                        decided => post == mid && outcome == decided,
                    });
                match crate::pod_manager::claim_of(answer) {
                    ClaimView::Lost => {
                        lemma_claim_explained(
                            mid,
                            post,
                            namespace,
                            candidates.drop_first(),
                            outcome,
                        );
                    },
                    _ => {
                        assert(pre.patch_outcome(
                            &post,
                            namespace,
                            target.0,
                            busy_delta(),
                            target.1,
                            answer,
                        ));
                        assert(lease_answered(post, namespace, answer));
                    },
                }
            },
        }
    }
}

/// An acquisition returns a pod only as the answer to an accepted lease
/// write, and fails only with a failed listing or as [`claim_failure`]
/// says: no version conflict of a write comes out of it.
pub proof fn lemma_acquisition_explained<T: PodOperations>(
    pre: T,
    post: T,
    namespace: Seq<char>,
    selector: Seq<char>,
    attempts: nat,
    result: Result<Option<PodView>, ApiErrorView>,
)
    requires
        acquire_run(pre, post, namespace, selector, attempts, result),
    ensures
        acquisition_explained(post, namespace, selector, result),
    decreases attempts,
{
    if attempts > 0 {
        let (mid, outcome) = choose|mid: T, outcome: AttemptView| #[trigger]
            attempt_run(pre, mid, namespace, selector, outcome) && match outcome {
                AttemptView::Done(r) => post == mid && result == r,
                AttemptView::Retry => acquire_run(
                    mid,
                    post,
                    namespace,
                    selector,
                    (attempts - 1) as nat,
                    result,
                ),
            };
        match outcome {
            AttemptView::Retry => {
                lemma_acquisition_explained(
                    mid,
                    post,
                    namespace,
                    selector,
                    (attempts - 1) as nat,
                    result,
                );
            },
            AttemptView::Done(r) => {
                let listed = choose|listed: Result<Seq<PodView>, ApiErrorView>| #[trigger]
                    pre.list_outcome(namespace, selector, listed) && match listed {
                        Err(e) => mid == pre && outcome == AttemptView::Done(Err(e)),
                        Ok(pods) => if pods.len() == 0 {
                            mid == pre && outcome == AttemptView::Done(Ok(None))
                        } else {
                            exists|order: Seq<PodView>, claim: ClaimView|
                                is_permutation(order, pods) && #[trigger] claim_run(
                                    pre,
                                    mid,
                                    namespace,
                                    order,
                                    claim,
                                ) && outcome == crate::pod_manager::attempt_of(claim)
                        },
                    };
                match listed {
                    Err(e) => {
                        assert(listing_failed::<T>(namespace, selector, e));
                    },
                    Ok(pods) => {
                        if pods.len() > 0 {
                            let (order, claim) = choose|order: Seq<PodView>, claim: ClaimView|
                                is_permutation(order, pods) && #[trigger] claim_run(
                                    pre,
                                    mid,
                                    namespace,
                                    order,
                                    claim,
                                ) && outcome == crate::pod_manager::attempt_of(claim);
                            lemma_claim_explained(pre, mid, namespace, order, claim);
                        }
                    },
                }
            },
        }
    }
}

} // verus!
