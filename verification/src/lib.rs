//! A DNS sinkhole core: domain-name normalization and fingerprinting, a
//! compact blocklist membership set with failure-isolated refresh, blocklist
//! source-text parsing, zone-scoped routing by longest suffix match,
//! reverse-lookup (PTR) name handling, and the query-interception and
//! telemetry pipeline.
//!
//! Network transport, DNS wire encoding, and the asynchronous runtime live
//! outside this crate; every function here computes over plain values.

pub mod blacklist;
pub mod blockparse;
pub mod bytes;
pub mod decimal;
pub mod fingerprint;
pub mod forwardcfg;
pub mod name;
pub mod pipeline;
pub mod reverse;
pub mod zone;
