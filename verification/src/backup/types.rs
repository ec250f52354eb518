//! What a backup holds and the options of a backup and of a restore.
use vstd::prelude::*;

use crate::credentials::opt_view;
use crate::list_map::ListMap;
use crate::text::{text, views};

verus! {

/// Category of exportable data.
#[derive(Debug, Clone)]
pub struct ExportCategory {
    /// Unique identifier (e.g., "remotes", "backend", "rclone_config").
    pub id: String,
    /// Human-readable name for display.
    pub name: String,
    /// Type of category.
    pub category_type: ExportCategoryType,
    /// Whether this category is optional.
    pub optional: bool,
    /// Description of what this category contains.
    pub description: Option<String>,
}

/// Type of export category.
#[derive(Debug, Clone, Copy, PartialEq, Eq, Structural)]
pub enum ExportCategoryType {
    /// Main settings file.
    Settings,
    /// Sub-settings (has items inside, can list).
    SubSettings,
    /// External file or folder (registered separately).
    External,
}

/// Type of backup export.
#[derive(Debug, Clone, PartialEq, Eq)]
pub enum ExportType {
    /// Full backup of all settings and sub-settings.
    Full,
    /// Only main settings and the sub-settings asked for.
    SettingsOnly,
    /// Single sub-settings entry.
    Single {
        /// Sub-settings type (e.g., "remotes").
        settings_type: String,
        /// Entry name (e.g., "gdrive").
        name: String,
    },
}

impl Default for ExportType {
    fn default() -> (r: Self)
        ensures
            r is Full,
    {
        ExportType::Full
    }
}

/// The strings of a slice of string slices.
pub open spec fn str_views(items: Seq<&str>) -> Seq<Seq<char>> {
    items.map_values(|s: &str| s@)
}

/// Owned copies of a slice of string slices.
pub fn to_strings(items: &[&str]) -> (r: Vec<String>)
    ensures
        views(r@) == str_views(items@),
{
    let mut out: Vec<String> = Vec::new();
    let n = items.len();
    let mut i: usize = 0;
    while i < n
        invariant
            n == items@.len(),
            i <= n,
            views(out@) == str_views(items@.subrange(0, i as int)),
        decreases n - i,
    {
        let ghost before = out@;
        out.push(text(items[i]));
        assert(views(out@) =~= views(before).push(items@[i as int]@));
        assert(str_views(items@.subrange(0, i + 1)) =~= str_views(items@.subrange(0, i as int)).push(items@[i as int]@));
        i += 1;
    }
    assert(items@.subrange(0, n as int) =~= items@);
    out
}

/// Options for creating a backup.
///
/// A progress callback is handed to the archive writer separately.
#[derive(Debug)]
pub struct BackupOptions {
    /// Output directory for the backup file.
    pub output_dir: String,
    /// Type of export.
    pub export_type: ExportType,
    /// Password for encryption (optional).
    pub password: Option<String>,
    /// User note to include in backup.
    pub user_note: Option<String>,
    /// Include main settings.
    pub include_settings: bool,
    /// Sub-settings categories to include (all items).
    pub include_sub_settings: Vec<String>,
    /// Sub-settings with specific items only (category -> items).
    pub include_sub_settings_items: ListMap,
    /// External configs to include (by id).
    pub include_external_configs: Vec<String>,
}

impl Default for BackupOptions {
    fn default() -> (r: Self)
        ensures
            r.output_dir@ == "."@,
            r.export_type is Full,
            r.password is None,
            r.user_note is None,
            r.include_settings,
            r.include_sub_settings@.len() == 0,
            r.include_sub_settings_items.lists() == Map::<Seq<char>, Seq<Seq<char>>>::empty(),
            r.include_external_configs@.len() == 0,
    {
        BackupOptions {
            output_dir: text("."),
            export_type: ExportType::Full,
            password: None,
            user_note: None,
            include_settings: true,
            include_sub_settings: Vec::new(),
            include_sub_settings_items: ListMap::new(),
            include_external_configs: Vec::new(),
        }
    }
}

impl BackupOptions {
    /// Create new backup options with default values.
    pub fn new() -> (r: Self)
        ensures
            r.output_dir@ == "."@,
            r.export_type is Full,
            r.password is None,
            r.user_note is None,
            r.include_settings,
            r.include_sub_settings@.len() == 0,
            r.include_sub_settings_items.lists() == Map::<Seq<char>, Seq<Seq<char>>>::empty(),
            r.include_external_configs@.len() == 0,
    {
        Self::default()
    }

    /// Set the output directory for the backup file.
    pub fn output_dir(self, path: &str) -> (r: Self)
        ensures
            r.output_dir@ == path@,
            r.export_type == self.export_type,
            r.password == self.password,
            r.user_note == self.user_note,
            r.include_settings == self.include_settings,
            r.include_sub_settings == self.include_sub_settings,
            r.include_sub_settings_items == self.include_sub_settings_items,
            r.include_external_configs == self.include_external_configs,
    {
        BackupOptions { output_dir: text(path), ..self }
    }

    /// Set an encryption password (the backup is written as an AES-256 encrypted ZIP).
    pub fn password(self, password: &str) -> (r: Self)
        ensures
            opt_view(r.password) == Some(password@),
            r.output_dir == self.output_dir,
            r.export_type == self.export_type,
            r.user_note == self.user_note,
            r.include_settings == self.include_settings,
            r.include_sub_settings == self.include_sub_settings,
            r.include_sub_settings_items == self.include_sub_settings_items,
            r.include_external_configs == self.include_external_configs,
    {
        BackupOptions { password: Some(text(password)), ..self }
    }

    /// Add a user note to include in the backup manifest.
    pub fn note(self, note: &str) -> (r: Self)
        ensures
            opt_view(r.user_note) == Some(note@),
            r.output_dir == self.output_dir,
            r.export_type == self.export_type,
            r.password == self.password,
            r.include_settings == self.include_settings,
            r.include_sub_settings == self.include_sub_settings,
            r.include_sub_settings_items == self.include_sub_settings_items,
            r.include_external_configs == self.include_external_configs,
    {
        BackupOptions { user_note: Some(text(note)), ..self }
    }

    /// Set the export type (Full, SettingsOnly, or Single).
    pub fn export_type(self, export_type: ExportType) -> (r: Self)
        ensures
            r.export_type == export_type,
            r.output_dir == self.output_dir,
            r.password == self.password,
            r.user_note == self.user_note,
            r.include_settings == self.include_settings,
            r.include_sub_settings == self.include_sub_settings,
            r.include_sub_settings_items == self.include_sub_settings_items,
            r.include_external_configs == self.include_external_configs,
    {
        BackupOptions { export_type, ..self }
    }

    /// Include main settings in backup.
    pub fn include_settings(self, enabled: bool) -> (r: Self)
        ensures
            r.include_settings == enabled,
            r.output_dir == self.output_dir,
            r.export_type == self.export_type,
            r.password == self.password,
            r.user_note == self.user_note,
            r.include_sub_settings == self.include_sub_settings,
            r.include_sub_settings_items == self.include_sub_settings_items,
            r.include_external_configs == self.include_external_configs,
    {
        BackupOptions { include_settings: enabled, ..self }
    }

    /// Include an entire sub-settings category (all items).
    pub fn include_sub_settings(self, category: &str) -> (r: Self)
        ensures
            views(r.include_sub_settings@) == views(self.include_sub_settings@).push(category@),
            r.output_dir == self.output_dir,
            r.export_type == self.export_type,
            r.password == self.password,
            r.user_note == self.user_note,
            r.include_settings == self.include_settings,
            r.include_sub_settings_items == self.include_sub_settings_items,
            r.include_external_configs == self.include_external_configs,
    {
        let mut s = self;
        let ghost before = s.include_sub_settings@;
        s.include_sub_settings.push(text(category));
        assert(views(s.include_sub_settings@) =~= views(before).push(category@));
        s
    }

    /// Include specific items from a sub-settings category, replacing any
    /// items chosen for it before.
    pub fn include_sub_settings_items(self, category: &str, items: &[&str]) -> (r: Self)
        ensures
            r.include_sub_settings_items.lists() == self.include_sub_settings_items.lists().insert(
                category@,
                str_views(items@),
            ),
            r.output_dir == self.output_dir,
            r.export_type == self.export_type,
            r.password == self.password,
            r.user_note == self.user_note,
            r.include_settings == self.include_settings,
            r.include_sub_settings == self.include_sub_settings,
            r.include_external_configs == self.include_external_configs,
    {
        let mut s = self;
        s.include_sub_settings_items.insert(category, to_strings(items));
        s
    }

    /// Include an external config by id.
    pub fn include_external(self, id: &str) -> (r: Self)
        ensures
            views(r.include_external_configs@) == views(self.include_external_configs@).push(id@),
            r.output_dir == self.output_dir,
            r.export_type == self.export_type,
            r.password == self.password,
            r.user_note == self.user_note,
            r.include_settings == self.include_settings,
            r.include_sub_settings == self.include_sub_settings,
            r.include_sub_settings_items == self.include_sub_settings_items,
    {
        let mut s = self;
        let ghost before = s.include_external_configs@;
        s.include_external_configs.push(text(id));
        assert(views(s.include_external_configs@) =~= views(before).push(id@));
        s
    }
}

/// Options for restoring a backup.
#[derive(Debug)]
pub struct RestoreOptions {
    /// Path to the backup file.
    pub backup_path: String,
    /// Password for decryption (if backup is encrypted).
    pub password: Option<String>,
    /// Whether to restore main settings.
    pub restore_settings: bool,
    /// Sub-settings to restore (category -> items, an empty list means all
    /// items of the category). When empty, every sub-settings category of
    /// the backup is restored.
    pub restore_sub_settings: ListMap,
    /// External config ids to restore (empty means all from the backup).
    pub restore_external_configs: Vec<String>,
    /// Whether to overwrite existing entries.
    pub overwrite_existing: bool,
    /// Dry run mode: preview what would be restored without making changes.
    pub dry_run: bool,
    /// Whether to verify the data archive checksum.
    pub verify_checksum: bool,
}

impl Default for RestoreOptions {
    fn default() -> (r: Self)
        ensures
            r.backup_path@ == Seq::<char>::empty(),
            r.password is None,
            r.restore_settings,
            r.restore_sub_settings.lists() == Map::<Seq<char>, Seq<Seq<char>>>::empty(),
            r.restore_external_configs@.len() == 0,
            !r.overwrite_existing,
            !r.dry_run,
            r.verify_checksum,
    {
        RestoreOptions {
            backup_path: String::new(),
            password: None,
            restore_settings: true,
            restore_sub_settings: ListMap::new(),
            restore_external_configs: Vec::new(),
            overwrite_existing: false,
            dry_run: false,
            verify_checksum: true,
        }
    }
}

impl RestoreOptions {
    /// Create restore options from a backup file path.
    pub fn from_path(path: &str) -> (r: Self)
        ensures
            r.backup_path@ == path@,
            r.password is None,
            r.restore_settings,
            r.restore_sub_settings.lists() == Map::<Seq<char>, Seq<Seq<char>>>::empty(),
            r.restore_external_configs@.len() == 0,
            !r.overwrite_existing,
            !r.dry_run,
            r.verify_checksum,
    {
        RestoreOptions { backup_path: text(path), ..Self::default() }
    }

    /// Set the decryption password.
    pub fn password(self, password: &str) -> (r: Self)
        ensures
            opt_view(r.password) == Some(password@),
            r.backup_path == self.backup_path,
            r.restore_settings == self.restore_settings,
            r.restore_sub_settings == self.restore_sub_settings,
            r.restore_external_configs == self.restore_external_configs,
            r.overwrite_existing == self.overwrite_existing,
            r.dry_run == self.dry_run,
            r.verify_checksum == self.verify_checksum,
    {
        RestoreOptions { password: Some(text(password)), ..self }
    }

    /// Enable dry run mode (preview without making changes).
    pub fn dry_run(self, dry_run: bool) -> (r: Self)
        ensures
            r.dry_run == dry_run,
            r.backup_path == self.backup_path,
            r.password == self.password,
            r.restore_settings == self.restore_settings,
            r.restore_sub_settings == self.restore_sub_settings,
            r.restore_external_configs == self.restore_external_configs,
            r.overwrite_existing == self.overwrite_existing,
            r.verify_checksum == self.verify_checksum,
    {
        RestoreOptions { dry_run, ..self }
    }

    /// Set whether to overwrite existing entries.
    pub fn overwrite(self, overwrite: bool) -> (r: Self)
        ensures
            r.overwrite_existing == overwrite,
            r.backup_path == self.backup_path,
            r.password == self.password,
            r.restore_settings == self.restore_settings,
            r.restore_sub_settings == self.restore_sub_settings,
            r.restore_external_configs == self.restore_external_configs,
            r.dry_run == self.dry_run,
            r.verify_checksum == self.verify_checksum,
    {
        RestoreOptions { overwrite_existing: overwrite, ..self }
    }

    /// Set whether to verify the backup checksum.
    pub fn verify_checksum(self, verify: bool) -> (r: Self)
        ensures
            r.verify_checksum == verify,
            r.backup_path == self.backup_path,
            r.password == self.password,
            r.restore_settings == self.restore_settings,
            r.restore_sub_settings == self.restore_sub_settings,
            r.restore_external_configs == self.restore_external_configs,
            r.overwrite_existing == self.overwrite_existing,
            r.dry_run == self.dry_run,
    {
        RestoreOptions { verify_checksum: verify, ..self }
    }

    /// Set whether to restore main settings.
    pub fn restore_settings(self, restore: bool) -> (r: Self)
        ensures
            r.restore_settings == restore,
            r.backup_path == self.backup_path,
            r.password == self.password,
            r.restore_sub_settings == self.restore_sub_settings,
            r.restore_external_configs == self.restore_external_configs,
            r.overwrite_existing == self.overwrite_existing,
            r.dry_run == self.dry_run,
            r.verify_checksum == self.verify_checksum,
    {
        RestoreOptions { restore_settings: restore, ..self }
    }

    /// Include an external config to restore by id.
    pub fn restore_external(self, id: &str) -> (r: Self)
        ensures
            views(r.restore_external_configs@) == views(self.restore_external_configs@).push(id@),
            r.backup_path == self.backup_path,
            r.password == self.password,
            r.restore_settings == self.restore_settings,
            r.restore_sub_settings == self.restore_sub_settings,
            r.overwrite_existing == self.overwrite_existing,
            r.dry_run == self.dry_run,
            r.verify_checksum == self.verify_checksum,
    {
        let mut s = self;
        let ghost before = s.restore_external_configs@;
        s.restore_external_configs.push(text(id));
        assert(views(s.restore_external_configs@) =~= views(before).push(id@));
        s
    }

    /// Restore a whole sub-settings category (all items in it).
    pub fn restore_sub_settings(self, category: &str) -> (r: Self)
        ensures
            r.restore_sub_settings.lists() == self.restore_sub_settings.lists().insert(category@, Seq::empty()),
            r.backup_path == self.backup_path,
            r.password == self.password,
            r.restore_settings == self.restore_settings,
            r.restore_external_configs == self.restore_external_configs,
            r.overwrite_existing == self.overwrite_existing,
            r.dry_run == self.dry_run,
            r.verify_checksum == self.verify_checksum,
    {
        let mut s = self;
        let empty: Vec<String> = Vec::new();
        assert(views(empty@) =~= Seq::<Seq<char>>::empty());
        s.restore_sub_settings.insert(category, empty);
        s
    }

    /// Restore specific items of a sub-settings category.
    pub fn restore_sub_settings_items(self, category: &str, items: &[&str]) -> (r: Self)
        ensures
            r.restore_sub_settings.lists() == self.restore_sub_settings.lists().insert(category@, str_views(items@)),
            r.backup_path == self.backup_path,
            r.password == self.password,
            r.restore_settings == self.restore_settings,
            r.restore_external_configs == self.restore_external_configs,
            r.overwrite_existing == self.overwrite_existing,
            r.dry_run == self.dry_run,
            r.verify_checksum == self.verify_checksum,
    {
        let mut s = self;
        s.restore_sub_settings.insert(category, to_strings(items));
        s
    }
}

/// External configuration file managed by the app, available for backup
/// export.
#[derive(Debug, Clone)]
pub struct ExternalConfig {
    /// Unique identifier for referencing in `BackupOptions`.
    pub id: String,
    /// Path to the config file or directory.
    pub path: String,
    /// Human-readable name for display.
    pub display_name: String,
    /// Description of what this config contains.
    pub description: Option<String>,
    /// Whether this config contains sensitive data.
    pub is_sensitive: bool,
    /// Whether this config is optional for export.
    pub optional: bool,
    /// Whether this is a directory (else a file).
    pub is_directory: bool,
}

impl ExternalConfig {
    /// Create a new external config registration; its display name is its id.
    pub fn new(id: &str, path: &str) -> (r: Self)
        ensures
            r.id@ == id@,
            r.path@ == path@,
            r.display_name@ == id@,
            r.description is None,
            !r.is_sensitive,
            !r.optional,
            !r.is_directory,
    {
        ExternalConfig {
            id: text(id),
            path: text(path),
            display_name: text(id),
            description: None,
            is_sensitive: false,
            optional: false,
            is_directory: false,
        }
    }

    /// Set a human-readable display name.
    pub fn display_name(self, name: &str) -> (r: Self)
        ensures
            r.display_name@ == name@,
            r.id == self.id,
            r.path == self.path,
            r.description == self.description,
            r.is_sensitive == self.is_sensitive,
            r.optional == self.optional,
            r.is_directory == self.is_directory,
    {
        ExternalConfig { display_name: text(name), ..self }
    }

    /// Set a description.
    pub fn description(self, desc: &str) -> (r: Self)
        ensures
            opt_view(r.description) == Some(desc@),
            r.id == self.id,
            r.path == self.path,
            r.display_name == self.display_name,
            r.is_sensitive == self.is_sensitive,
            r.optional == self.optional,
            r.is_directory == self.is_directory,
    {
        ExternalConfig { description: Some(text(desc)), ..self }
    }

    /// Mark this config as containing sensitive data.
    pub fn sensitive(self) -> (r: Self)
        ensures
            r.is_sensitive,
            r.id == self.id,
            r.path == self.path,
            r.display_name == self.display_name,
            r.description == self.description,
            r.optional == self.optional,
            r.is_directory == self.is_directory,
    {
        ExternalConfig { is_sensitive: true, ..self }
    }

    /// Mark this config as optional (not included by default in a full backup).
    pub fn optional(self) -> (r: Self)
        ensures
            r.optional,
            r.id == self.id,
            r.path == self.path,
            r.display_name == self.display_name,
            r.description == self.description,
            r.is_sensitive == self.is_sensitive,
            r.is_directory == self.is_directory,
    {
        ExternalConfig { optional: true, ..self }
    }

    /// Mark this as a directory instead of a file.
    pub fn directory(self) -> (r: Self)
        ensures
            r.is_directory,
            r.id == self.id,
            r.path == self.path,
            r.display_name == self.display_name,
            r.description == self.description,
            r.is_sensitive == self.is_sensitive,
            r.optional == self.optional,
    {
        ExternalConfig { is_directory: true, ..self }
    }
}

/// Source of external configs to include in backups, implemented by users
/// of the library.
pub trait ExternalConfigProvider {
    /// Get all external configs to include in backup.
    fn get_configs(&self) -> Vec<ExternalConfig>;
}

/// Current manifest version used when creating backups.
pub const MANIFEST_VERSION_CURRENT: u32 = 1;

/// Minimum manifest version this library can restore from.
pub const MANIFEST_VERSION_MIN_SUPPORTED: u32 = 1;

/// Maximum manifest version this library can restore from.
pub const MANIFEST_VERSION_MAX_SUPPORTED: u32 = 1;

/// Check if a manifest version is supported for restore.
pub fn is_manifest_version_supported(version: u32) -> (r: bool)
    ensures
        r == (MANIFEST_VERSION_MIN_SUPPORTED <= version <= MANIFEST_VERSION_MAX_SUPPORTED),
{
    version >= MANIFEST_VERSION_MIN_SUPPORTED && version <= MANIFEST_VERSION_MAX_SUPPORTED
}

/// Backup integrity information.
#[derive(Debug, Clone)]
pub struct BackupIntegrity {
    /// SHA-256 checksum of the data archive, in lowercase hex.
    pub sha256: Option<String>,
    /// Uncompressed size in bytes.
    pub size_bytes: u64,
    /// Compressed size in bytes (if applicable).
    pub compressed_size_bytes: Option<u64>,
}

impl Default for BackupIntegrity {
    fn default() -> (r: Self)
        ensures
            r.sha256 is None,
            r.size_bytes == 0,
            r.compressed_size_bytes is None,
    {
        BackupIntegrity { sha256: None, size_bytes: 0, compressed_size_bytes: None }
    }
}

/// What's included in the backup.
#[derive(Debug)]
pub struct BackupContents {
    /// Main settings included.
    pub settings: bool,
    /// Sub-settings included (category -> item names, an empty list means all items).
    pub sub_settings: ListMap,
    /// External configs included (by id).
    pub external_configs: Vec<String>,
    /// Total file count.
    pub file_count: u32,
}

impl Default for BackupContents {
    fn default() -> (r: Self)
        ensures
            !r.settings,
            r.sub_settings.lists() == Map::<Seq<char>, Seq<Seq<char>>>::empty(),
            r.external_configs@.len() == 0,
            r.file_count == 0,
    {
        BackupContents { settings: false, sub_settings: ListMap::new(), external_configs: Vec::new(), file_count: 0 }
    }
}

/// The items a profile of profiled sub-settings holds in a backup.
#[derive(Debug, Clone, PartialEq, Eq)]
pub enum ProfileEntry {
    /// One item.
    Single(String),
    /// Several items.
    Multiple(Vec<String>),
}

/// How a sub-settings type is laid out in a backup.
#[derive(Debug, Clone, PartialEq, Eq)]
pub enum SubSettingsManifestEntry {
    /// One file holding every entry, by its file name.
    SingleFile(String),
    /// One file per entry, by the entries' names.
    MultiFile(Vec<String>),
    /// Per profile, the items it holds.
    Profiled { profiles: Vec<(String, ProfileEntry)> },
}

} // verus!
