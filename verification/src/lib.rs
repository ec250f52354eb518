//! rcman: settings management with profiles, credentials and backups.
//!
//! The library holds the decision logic of a settings manager: which value a
//! setting has, how profiles are created, switched and removed, how secrets
//! are namespaced and which backend answers, what a backup contains and what
//! a restore does with each entry. Reading and writing files is left to the
//! caller, which hands the library plain values.
pub mod accessors;
pub mod backup;
pub mod cache;
pub mod config;
pub mod credentials;
pub mod docs;
pub mod error;
pub mod json;
pub mod list_map;
pub mod meta;
pub mod metadata;
pub mod operations;
pub mod profiles;
pub mod reload;
pub mod secrets;
pub mod settings;
pub mod storage;
pub mod string_map;
pub mod text;
pub mod validation;

pub use cache::CacheStrategy;
pub use error::Error;
