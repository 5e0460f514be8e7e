//! A lease pool of worker pods, coordinated through the labels and resource
//! versions of a pod directory.
//!
//! A front end borrows a worker pod for each request: it lists the pods
//! whose labels say `ready`, and takes one by writing `busy` to it with a
//! compare-and-swap on the pod's resource version. Any number of front ends
//! may do so at once; the directory is all they share.
//!
//! * [`pod_manager`] holds the coordinator and says which runs an
//!   acquisition and a release may take.
//! * [`traits`] is what the coordinator needs of a directory, [`mock`] a
//!   directory in memory.
//! * [`outcomes`] proves what holds of every acquisition, whatever the
//!   directory; [`laws`] what holds of the pool over the directory in memory,
//!   and [`races`] what holds of writes that race on it.
//! * [`selector`], [`labels`], [`pod`], [`version`], [`decimal`] and
//!   [`text`] are the grammar and the data underneath, [`shuffle`] the
//!   random order in which candidates are tried.
//! * [`proxy`], [`config`], [`error`], [`types`], [`worker_error`],
//!   [`placeholder`] and [`cluster`] are what the programs around the pool
//!   decide and report.
pub mod cluster;
pub mod config;
pub mod decimal;
pub mod error;
pub mod labels;
pub mod laws;
pub mod mock;
pub mod outcomes;
pub mod placeholder;
pub mod pod;
pub mod pod_manager;
pub mod proxy;
pub mod races;
pub mod selector;
pub mod shuffle;
pub mod text;
pub mod traits;
pub mod types;
pub mod version;
pub mod worker_error;

pub use crate::config::Config;
pub use crate::error::{ApiError, ApiResult};
pub use crate::labels::Labels;
pub use crate::mock::MockPodOperations;
pub use crate::pod::Pod;
pub use crate::pod_manager::PodManager;
pub use crate::traits::PodOperations;
