//! A distributed unique-ID range allocator library.
//!
//! Clients request chunks of monotonically increasing integers for a named
//! sequence; the service hands out disjoint, never-reused sub-ranges backed by
//! a consistent key-value coordination store, while amortizing store round
//! trips through an in-process range cache.

pub mod b64;
pub mod cache_map;
pub mod cache_worker;
pub mod config;
pub mod etcd_client;
pub mod oneshot;
pub mod operations;
pub mod provider;
pub mod range;
pub mod req_types;
pub mod resp_types;
pub mod strmap;
