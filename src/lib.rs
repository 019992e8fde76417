//! A caching front end for directory (WHOIS) lookups: a coalescing table of
//! answers with a time to live and least-recently-used eviction, the steps
//! that turn a client address into a cacheable answer, and the settings and
//! header scan around them.

pub mod cache;
pub mod config;
pub mod headers;
pub mod lookup;
