//! Error type of the library.
use vstd::prelude::*;

verus! {

/// Errors reported by the library. Paths and causes are carried as text.
#[derive(Debug, Clone, PartialEq, Eq)]
pub enum Error {
    /// A file could not be read.
    FileRead { path: String, reason: String },
    /// A file could not be written.
    FileWrite { path: String, reason: String },
    /// A directory could not be created.
    DirectoryCreate { path: String, reason: String },
    /// A directory could not be listed.
    DirectoryRead { path: String, reason: String },
    /// A file could not be deleted.
    FileDelete { path: String, reason: String },
    /// A path does not exist.
    PathNotFound(String),
    /// Data could not be serialized.
    Serialize(String),
    /// Settings could not be parsed.
    Parse(String),
    /// The setting is not part of the schema.
    SettingNotFound(String),
    /// A value was rejected for a setting.
    InvalidSettingValue { key: String, reason: String },
    /// The metadata of a setting is malformed.
    InvalidSettingMetadata { key: String, reason: String },
    /// No schema was registered.
    SchemaNotRegistered,
    /// A value had another type than expected.
    TypeMismatch { key: String, expected: String, actual: String },
    /// The sub-settings type is not registered.
    SubSettingsNotRegistered(String),
    /// The sub-settings entry does not exist.
    SubSettingsEntryNotFound(String),
    /// A backup could not be created.
    BackupFailed(String),
    /// A restore failed.
    RestoreFailed(String),
    /// The backup file is not valid.
    InvalidBackup(String),
    /// The backup is encrypted and no password was given.
    PasswordRequired,
    /// The backup password is wrong.
    InvalidPassword,
    /// Two versions do not match.
    VersionMismatch { expected: String, found: String },
    /// An archive operation failed.
    Archive(String),
    /// The zip library reported an error.
    Zip(String),
    /// Invalid configuration.
    Config(String),
    /// The manager was used before it was initialized.
    NotInitialized,
    /// A credential backend failed.
    Credential(String),
    /// The profile does not exist.
    ProfileNotFound(String),
    /// A profile with this name exists already.
    ProfileAlreadyExists(String),
    /// The active profile cannot be deleted.
    CannotDeleteActiveProfile(String),
    /// The last remaining profile cannot be deleted.
    CannotDeleteLastProfile,
    /// The profile name is not acceptable.
    InvalidProfileName(String),
    /// Profiles are not enabled.
    ProfilesNotEnabled,
    /// Migrating to the profile layout failed.
    ProfileMigrationFailed(String),
    /// The cache strategy is not acceptable.
    InvalidCacheStrategy(String),
    /// An internal lock was poisoned.
    LockPoisoned,
    /// Another lock error.
    LockError(String),
}

impl Error {
    /// Whether the error says that something was not found.
    pub open spec fn spec_is_not_found(&self) -> bool {
        ||| self is PathNotFound
        ||| self is SettingNotFound
        ||| self is SubSettingsEntryNotFound
    }

    /// Whether the error comes from backup or restore.
    pub open spec fn spec_is_backup_error(&self) -> bool {
        ||| self is BackupFailed
        ||| self is RestoreFailed
        ||| self is InvalidBackup
        ||| self is PasswordRequired
        ||| self is InvalidPassword
        ||| self is VersionMismatch
    }

    /// Check if this is a "not found" type error.
    pub fn is_not_found(&self) -> (r: bool)
        ensures
            r == self.spec_is_not_found(),
    {
        match self {
            Error::PathNotFound(_) | Error::SettingNotFound(_) | Error::SubSettingsEntryNotFound(_) => true,
            _ => false,
        }
    }

    /// Check if this is a backup-related error.
    pub fn is_backup_error(&self) -> (r: bool)
        ensures
            r == self.spec_is_backup_error(),
    {
        match self {
            Error::BackupFailed(_)
            | Error::RestoreFailed(_)
            | Error::InvalidBackup(_)
            | Error::PasswordRequired
            | Error::InvalidPassword
            | Error::VersionMismatch { .. } => true,
            _ => false,
        }
    }
}

} // verus!
