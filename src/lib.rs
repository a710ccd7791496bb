//! Subdomain discovery and validation: candidate aggregation, DNS result
//! collection, HTTP fingerprinting decisions and wildcard-DNS suppression.
//!
//! The network work itself (naming sources, DNS queries, HTTP requests) is
//! performed by the caller; this library decides what to do with its results.

pub mod discovery;
pub mod model;
pub mod probe;
pub mod resolve;
pub mod text;
pub mod wildcard;
