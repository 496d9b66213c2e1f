//! Queue Alert: an alert engine for amusement-park ride wait times.
//!
//! The library holds the verified core: the ride and subscription data
//! model, the freshness cache over the upstream ride-time source, the
//! subscriber registry mirrored to a durable store, the per-subscriber
//! matching rule, and the dispatch pass that builds and classifies
//! notification deliveries.

pub mod client;
pub mod dispatch;
pub mod error;
pub mod model;
pub mod models;
pub mod parser;
pub mod payload;
pub mod registration;
