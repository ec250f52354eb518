//! Secret storage policy types.
use vstd::prelude::*;

verus! {

/// Where to store secret values.
#[derive(Debug, Clone, Copy, PartialEq, Eq)]
pub enum SecretStorage {
    /// Store in the OS keychain (default, most secure).
    Keychain,
    /// Store encrypted in a file (portable).
    EncryptedFile,
    /// Store in memory only (session-only, not persisted).
    Memory,
}

impl Default for SecretStorage {
    fn default() -> (r: Self)
        ensures
            r == SecretStorage::Keychain,
    {
        SecretStorage::Keychain
    }
}

/// Whether secrets go into backups.
#[derive(Debug, Clone, Copy, PartialEq, Eq)]
pub enum SecretBackupPolicy {
    /// Never include secrets in backup (default).
    Exclude,
    /// Include secrets only if the backup is encrypted.
    EncryptedOnly,
    /// Always include secrets, in plaintext when the backup is not encrypted.
    Include,
}

impl Default for SecretBackupPolicy {
    fn default() -> (r: Self)
        ensures
            r == SecretBackupPolicy::Exclude,
    {
        SecretBackupPolicy::Exclude
    }
}

impl SecretBackupPolicy {
    /// Whether secrets are written into a backup under this policy, given
    /// whether the backup is protected by a password.
    pub open spec fn spec_includes_secrets(self, has_password: bool) -> bool {
        match self {
            SecretBackupPolicy::Exclude => false,
            SecretBackupPolicy::Include => true,
            SecretBackupPolicy::EncryptedOnly => has_password,
        }
    }

    /// Whether secrets are written into a backup under this policy.
    /// `EncryptedOnly` falls back to excluding secrets without a password.
    pub fn includes_secrets(&self, has_password: bool) -> (r: bool)
        ensures
            r == self.spec_includes_secrets(has_password),
    {
        match self {
            SecretBackupPolicy::Exclude => false,
            SecretBackupPolicy::Include => true,
            SecretBackupPolicy::EncryptedOnly => has_password,
        }
    }
}

/// Source for the master password used to unlock encrypted credential files.
#[derive(Debug, Clone, PartialEq, Eq)]
pub enum SecretPasswordSource {
    /// Read the password from an environment variable.
    Environment(String),
    /// Read the password from a file (e.g. Docker secrets `/run/secrets/...`).
    File(String),
    /// Provided directly by the application at runtime (e.g. from a UI).
    Provided(String),
}

} // verus!
