//! Downloads: what is fetched for an item, under which name, and what becomes
//! of it.

pub mod artifacts;
pub mod containment;
pub mod decrypt;
pub mod info;
pub mod item;
pub mod license;
pub mod options;
pub mod orphans;
pub mod reorganize;
pub mod request_kind;
pub mod widevine;
