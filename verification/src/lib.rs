//! Lowest buy-it-now price aggregation for a paginated auction marketplace.
//!
//! The library holds the verified core of the pipeline: markup stripping,
//! canonical item classification, min-price aggregation, page-result
//! classification, the scan fold, and snapshot rendering and publication.
//! Network retrieval and binary-blob deserialization live outside, handing
//! the library plain values.

pub mod item;
pub mod strip;
pub mod classify;
pub mod aggregate;
pub mod page;
pub mod scan;
pub mod snapshot;
