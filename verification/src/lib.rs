//! Verified core of a Mode S / ADS-B decoding toolkit: Beast frame
//! extraction, Comm-B register (BDS) dispatch and decoding, message
//! filters, query parsing and runtime counters.

pub mod bds;
pub mod beast;
pub mod decode;
pub mod error;
pub mod filters;
pub mod metrics;
pub mod web;
pub mod text;
