//! Enrichment engine for an in-memory public-transit model: generation of
//! walking transfers between nearby stop points, driven by geometry and
//! declarative override rules, and rule-based attachment of external codes
//! with a full outcome report.

pub mod codes;
pub mod kv;
pub mod laws;
pub mod model;
pub mod rules;
pub mod scan;
pub mod transfers;
