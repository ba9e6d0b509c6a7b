//! Ordered-content engine of a discussion forum: dense per-thread post
//! positions, folding of flat join rows into nested listings, per-post
//! reaction tallies, and a session store that rotates identifiers at the
//! authentication boundary.
pub mod auth;
pub mod hierarchy;
pub mod ledger;
pub mod models;
pub mod pagination;
pub mod reactions;
pub mod sessions;
