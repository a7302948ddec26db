//! A minimal Kubernetes Metrics API library: parsing of resource-quantity
//! strings and Prometheus text-exposition payloads, a latest-snapshot scrape
//! store, the scrape-cycle aggregation rules, and the generic discovery and
//! not-found documents served by a metrics API endpoint.

pub mod collector;
pub mod custom;
pub mod cycle;
pub mod discovery;
pub mod expo;
pub mod meta;
pub mod quantity;
pub mod status;
pub mod store;
pub mod util;
