//! Verified core of an analytics pipeline for e-commerce user events.
//!
//! Events carry a timestamped product interaction; the library models the
//! event wire format, time ranges, the per-user profile store, and the
//! per-minute aggregation of counts and price sums across filter
//! projections, each with a proved contract.

use vstd::prelude::*;

pub mod aggregates;
pub mod codec;
pub mod combination;
pub mod cas;
pub mod engine;
pub mod gateway;
pub mod filters;
pub mod datetime;
pub mod db_ops;
pub mod retry;
pub mod text;
pub mod profiles;
pub mod time_range;
pub mod user_tag;

verus! {

} // verus!
