//! Backups: what goes into one, how it is named, and what a restore does
//! with each of its entries.
pub mod digest;
pub mod plan;
pub mod restore;
pub mod types;

pub use restore::{
    ImportTargetKind, RestoreAction, RestorePendingItem, RestorePendingReason, RestoreResult, RestoreSkipReason,
    RestoreSkippedItem,
};
pub use types::{
    is_manifest_version_supported, BackupContents, BackupIntegrity, BackupOptions, ExportCategory,
    ExportCategoryType, ExportType, ExternalConfig, ExternalConfigProvider, RestoreOptions,
    MANIFEST_VERSION_CURRENT, MANIFEST_VERSION_MAX_SUPPORTED, MANIFEST_VERSION_MIN_SUPPORTED,
};
