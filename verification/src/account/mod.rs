//! Accounts: how they are registered, kept, renamed and removed, and what they
//! hold.

pub mod error;
pub mod login;
pub mod manage;
pub mod material;
pub mod password;
pub mod register;
pub mod status;
