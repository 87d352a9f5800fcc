//! Encrypted, deduplicated, versioned directory backups: the decision logic of
//! the backup engine, with its contracts.

pub mod actions;
pub mod compress;
pub mod config;
pub mod crypto;
pub mod error;
pub mod gc;
pub mod layout;
pub mod password;
pub mod registry;
pub mod snapshot;
pub mod strmap;
pub mod text;
