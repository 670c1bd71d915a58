//! Extraction engine and snapshot cache for a HackerNews reader.
//!
//! The library turns queried markup rows into typed entities -- story
//! listings, item details with comment lists, user profiles -- and persists
//! the last listing as a flat, delimiter-encoded, TTL-checked snapshot keyed
//! by display rank. Fetching, terminal output and browser integration live
//! outside the library; the extractors and the codec are specified and
//! verified here.

pub mod cache;
pub mod errors;
pub mod item;
pub mod listing;
pub mod pages;
pub mod profile;
pub mod scrape;
pub mod story;
pub mod text;

use vstd::prelude::*;

verus! {

/// Number of listing entries a full page nominally carries.
pub const PAGE_SIZE: usize = 30;

/// Seconds a cached snapshot stays valid: a snapshot is stale once its age
/// strictly exceeds this.
pub const CACHE_TTL_SECONDS: u64 = 300;

} // verus!
