//! A distributed rate limit decision library.
//!
//! The crate answers whether a request identified by a (domain, descriptor)
//! tuple should be allowed or rejected under configured request-per-window
//! quotas.  The counter engine, the rule resolver, the limiter composition,
//! the request facade and the distributed decision path are verified; the
//! gossip transport and the configuration file loader live outside the
//! library and hand it plain values.

pub mod counter;
pub mod text;
pub mod cluster;
pub mod descriptor;
pub mod rules;
pub mod wire;
pub mod limiter;
pub mod backend;
pub mod service;
pub mod distributed;
pub mod config;
