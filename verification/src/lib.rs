//! Verified core of OpenObserve's distinct-value collector and of its
//! organization cleanup worker.

pub mod select;
pub mod distinct;
pub mod text;
pub mod org_cleanup;
pub mod org_grouping;
pub mod org_worker;
pub mod stream_purge;
