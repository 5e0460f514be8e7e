//! The capability that the pool needs of a pod directory.
use crate::error::{ApiErrorView, ApiResult};
use crate::labels::{pair_views, LabelPair};
use crate::pod::{pod_views, Pod, PodView};
use vstd::prelude::*;

verus! {

/// The view of a listing's result.
pub open spec fn listing_view(result: ApiResult<Vec<Pod>>) -> Result<Seq<PodView>, ApiErrorView> {
    match result {
        Ok(pods) => Ok(pod_views(pods@)),
        Err(e) => Err(e@),
    }
}

/// The view of the result of a read or a write of one pod.
pub open spec fn pod_result_view(result: ApiResult<Pod>) -> Result<PodView, ApiErrorView> {
    match result {
        Ok(pod) => Ok(pod@),
        Err(e) => Err(e@),
    }
}

/// A directory of pods that can be listed by label selector, read by name,
/// and written by a compare-and-swap on the resource version.
///
/// An implementation says with the three `*_outcome` predicates which answers
/// it may give in which state. A directory that other parties write to
/// knows nothing of its state, and lets every answer be possible; one that
/// holds the pods itself states its answers exactly. The pool promises
/// nothing beyond what these predicates say.
pub trait PodOperations: Sized {
    /// `outcome` is an answer that `list_pods` may give in this state.
    open spec fn list_outcome(
        &self,
        namespace: Seq<char>,
        label_selector: Seq<char>,
        outcome: Result<Seq<PodView>, ApiErrorView>,
    ) -> bool {
        true
    }

    /// `outcome` is an answer that `get_pod` may give in this state.
    open spec fn get_outcome(
        &self,
        namespace: Seq<char>,
        name: Seq<char>,
        outcome: Result<PodView, ApiErrorView>,
    ) -> bool {
        true
    }

    /// `patch_pod_labels` may answer `outcome` in this state and leave the
    /// directory as `after`.
    open spec fn patch_outcome(
        &self,
        after: &Self,
        namespace: Seq<char>,
        name: Seq<char>,
        labels: Seq<LabelPair>,
        resource_version: Seq<char>,
        outcome: Result<PodView, ApiErrorView>,
    ) -> bool {
        true
    }

    /// The pods of `namespace` whose labels satisfy `label_selector`.
    fn list_pods(&self, namespace: &str, label_selector: &str) -> (result: ApiResult<Vec<Pod>>)
        ensures
            self.list_outcome(namespace@, label_selector@, listing_view(result)),
    ;

    /// The pod `name` of `namespace`.
    fn get_pod(&self, namespace: &str, name: &str) -> (result: ApiResult<Pod>)
        ensures
            self.get_outcome(namespace@, name@, pod_result_view(result)),
    ;

    /// Writes `labels` over those of the pod `name`, if the pod's resource
    /// version still is `resource_version`, and hands back the pod as
    /// written.
    fn patch_pod_labels(
        &mut self,
        namespace: &str,
        name: &str,
        labels: Vec<(String, String)>,
        resource_version: &str,
    ) -> (result: ApiResult<Pod>)
        ensures
            old(self).patch_outcome(
                final(self),
                namespace@,
                name@,
                pair_views(labels@),
                resource_version@,
                pod_result_view(result),
            ),
    ;
}

} // verus!
