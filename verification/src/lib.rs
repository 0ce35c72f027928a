//! An in-memory social-feed core: an append-only post store with dense,
//! monotonically assigned ids and non-decreasing timestamps, and a pure
//! pagination layer that serves the feed newest-first in bounded pages.

mod clock;
pub mod paginate;
pub mod post;
pub mod store;
