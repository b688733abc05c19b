//! Verified building blocks of a browser's network stack: an HTTP response
//! cache and public-suffix matching for host names.

pub mod cache_key;
pub mod cache_model;
pub mod freshness;
pub mod headers;
pub mod http_cache;
pub mod laws;
pub mod message;
pub mod pub_domains;
pub mod text;
