//! A worker pod, as far as the pool reads it.
use crate::labels::Labels;
use vstd::prelude::*;
use vstd::string::*;

verus! {

/// The label key under which a pod's availability stands.
pub open spec fn status_key() -> Seq<char> {
    "status"@
}

/// The status of a pod that may be leased.
pub open spec fn ready_value() -> Seq<char> {
    "ready"@
}

/// The status of a pod that is leased.
pub open spec fn busy_value() -> Seq<char> {
    "busy"@
}

/// What a pod is, as plain values.
pub ghost struct PodView {
    pub name: Option<Seq<char>>,
    pub namespace: Option<Seq<char>>,
    pub labels: Option<Map<Seq<char>, Seq<char>>>,
    pub resource_version: Option<Seq<char>>,
    pub pod_ip: Option<Seq<char>>,
}

impl PodView {
    /// The labels, an absent mapping counting as the empty one.
    pub open spec fn labels_or_empty(self) -> Map<Seq<char>, Seq<char>> {
        match self.labels {
            Some(labels) => labels,
            None => Map::empty(),
        }
    }

    /// Whether the status label reads `status`.
    pub open spec fn has_status(self, status: Seq<char>) -> bool {
        self.labels_or_empty().contains_key(status_key()) && self.labels_or_empty()[status_key()]
            == status
    }
}

/// One pod of the directory: its identity, its labels, the version token of
/// its last change, and its address once it has one.
#[derive(Debug)]
pub struct Pod {
    pub name: Option<String>,
    pub namespace: Option<String>,
    pub labels: Option<Labels>,
    pub resource_version: Option<String>,
    pub pod_ip: Option<String>,
}

impl View for Pod {
    type V = PodView;

    open spec fn view(&self) -> PodView {
        PodView {
            name: self.name.deep_view(),
            namespace: self.namespace.deep_view(),
            labels: match self.labels {
                Some(labels) => Some(labels@),
                None => None,
            },
            resource_version: self.resource_version.deep_view(),
            pod_ip: self.pod_ip.deep_view(),
        }
    }
}

/// The views of a sequence of pods.
pub open spec fn pod_views(pods: Seq<Pod>) -> Seq<PodView> {
    pods.map_values(|p: Pod| p@)
}

/// A copy of an optional text.
pub fn clone_text(text: &Option<String>) -> (copy: Option<String>)
    ensures
        copy.deep_view() == text.deep_view(),
{
    match text {
        Some(s) => Some(s.clone()),
        None => None,
    }
}

impl Clone for Pod {
    fn clone(&self) -> (copy: Self)
        ensures
            copy@ == self@,
    {
        Pod {
            name: clone_text(&self.name),
            namespace: clone_text(&self.namespace),
            labels: match &self.labels {
                Some(labels) => Some(labels.clone()),
                None => None,
            },
            resource_version: clone_text(&self.resource_version),
            pod_ip: clone_text(&self.pod_ip),
        }
    }
}

} // verus!
