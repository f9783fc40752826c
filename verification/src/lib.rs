//! A bounded memoization cache.
//!
//! [`Cached`] wraps a single-argument callable and remembers prior results
//! keyed by input. Entries carry a recency rank (rank 0 is the most recent);
//! a hit promotes its entry a single rank toward the front, and a miss at
//! capacity evicts the entry of highest rank before the fresh result enters
//! at the back. The cache keeps its mapping and its recency order as one
//! sequence of entries, so an entry's rank is its position by construction.

pub mod cache;
pub mod model;

pub use cache::Cached;
