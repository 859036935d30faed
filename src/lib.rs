//! Client-side logic for searching an annotation repository: reading the
//! session handle that the service hands back, normalising page cursors,
//! building request addresses, and walking a paged result set one record at
//! a time with a fail-fast policy.

pub mod error;
pub mod iterate;
pub mod json;
pub mod location;
pub mod page;
pub mod session;
pub mod token;
pub mod urls;
