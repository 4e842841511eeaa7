//! A lightweight, single-threaded, bounded in-memory cache.
//!
//! Admission to the cache is controlled by a Tiny-LFU frequency filter and
//! eviction follows the least-recently-used order.  Every operation carries a
//! contract over a mathematical model of the cache: a map from keys to values,
//! the sequence of keys in access order, and the table of the frequency
//! sketch.
pub mod common;
pub mod policy;
pub mod unsync;

pub use policy::Policy;
