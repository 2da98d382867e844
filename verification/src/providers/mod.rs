//! Provider-facing types and the pure logic of the provider client:
//! response classification, rate-limit extraction, and conversion into the
//! common record shapes.

pub mod common;
pub mod github;
