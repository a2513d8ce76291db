//! Host-side services for running untrusted guest contracts behind a fixed
//! capability surface: a staged key-value store with atomic commit, a
//! gas-metered transaction ledger, a domain-allowlisted egress gateway, and
//! the per-invocation dispatch logic that selects sources and entry points.

pub mod batch;
pub mod block;
pub mod dispatch;
pub mod gateway;
pub mod glob;
pub mod ledger;
pub mod limits;
pub mod registry;
pub mod store;
pub mod text;
