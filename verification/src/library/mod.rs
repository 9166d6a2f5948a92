//! The library: how it is synced, listed, exported and changed.

pub mod changes;
pub mod episodes;
pub mod error;
pub mod list;
pub mod membership;
pub mod sync;
