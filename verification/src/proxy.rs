//! What the front end decides when it hands a request on to a leased pod.
use crate::error::{ApiError, ApiErrorView, ApiResult};
use crate::pod::Pod;
use vstd::prelude::*;
use vstd::string::*;

verus! {

/// The address at which the pod with the address `pod_ip` takes
/// authentication requests.
pub open spec fn worker_url_of(pod_ip: Seq<char>) -> Seq<char> {
    "http://"@ + pod_ip + ":8080/authenticate"@
}

/// The failure that reports a request which the pod answered with an
/// unsuccessful status.
pub open spec fn worker_failure_of(status: Seq<char>, body: Seq<char>) -> ApiErrorView {
    ApiErrorView::WorkerRequest("Worker returned "@ + status + ": "@ + body)
}

/// The pod that an acquisition returned, or the failure that reports that
/// there was none.
pub fn leased_or_unavailable(acquired: Option<Pod>) -> (leased: ApiResult<Pod>)
    ensures
        match acquired {
            Some(pod) => leased == Ok::<Pod, ApiError>(pod),
            None => leased is Err && leased->Err_0@ == ApiErrorView::NoWorkers,
        },
{
    match acquired {
        Some(pod) => Ok(pod),
        None => Err(ApiError::NoWorkers),
    }
}

/// Decides [`worker_url_of`].
pub fn worker_url(pod_ip: &str) -> (url: String)
    ensures
        url@ == worker_url_of(pod_ip@),
{
    let mut url = String::from_str("http://");
    url.append(pod_ip);
    url.append(":8080/authenticate");
    url
}

/// Decides [`worker_failure_of`].
pub fn worker_failure(status: &str, body: &str) -> (failure: ApiError)
    ensures
        failure@ == worker_failure_of(status@, body@),
{
    let mut text = String::from_str("Worker returned ");
    text.append(status);
    text.append(": ");
    text.append(body);
    ApiError::WorkerRequest(text)
}

} // verus!
