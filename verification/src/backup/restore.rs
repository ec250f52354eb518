//! What a restore did with each entry of a backup, and the decisions that
//! put an entry in one of its lists.
use vstd::prelude::*;

use super::types::{is_manifest_version_supported, BackupContents, RestoreOptions};
use super::plan::version_warning;
use crate::error::Error;
use crate::text::{contains_str, decimal_text, join2, join3, str_eq, text, views};

verus! {

/// Why an entry of the backup was not restored.
#[derive(Debug, Clone, Copy, PartialEq, Eq, Structural)]
pub enum RestoreSkipReason {
    /// Target entry already exists and overwrite is disabled.
    ExistsConflict,
    /// External config import target is read-only.
    ReadOnlyImportTarget,
    /// Requested sub-settings type was not registered in target manager.
    UnregisteredSubSettingsType,
}

/// A skipped entry with its reason.
#[derive(Debug, Clone, PartialEq, Eq)]
pub struct RestoreSkippedItem {
    /// Item identifier (same value as in `RestoreResult::skipped`).
    pub id: String,
    /// Why this item was skipped.
    pub reason: RestoreSkipReason,
}

/// Why an entry of the backup needs manual handling.
#[derive(Debug, Clone, Copy, PartialEq, Eq, Structural)]
pub enum RestorePendingReason {
    /// External config is present in backup but not registered in target.
    UnknownExternalConfig,
    /// Profiled backup requires selecting a source profile for flat targets.
    ProfileSelectionRequired,
    /// Requested source profile was not present in backup contents.
    MissingSourceProfile,
}

/// A pending entry with its reason.
#[derive(Debug, Clone, PartialEq, Eq)]
pub struct RestorePendingItem {
    /// Item identifier (same value as in `RestoreResult::external_pending`).
    pub id: String,
    /// Why this item is pending.
    pub reason: RestorePendingReason,
}

/// The ids, in order, of the skipped items with the given reason.
pub open spec fn skipped_ids_with(items: Seq<RestoreSkippedItem>, reason: RestoreSkipReason) -> Seq<Seq<char>>
    decreases items.len(),
{
    if items.len() == 0 {
        Seq::empty()
    } else if items.last().reason == reason {
        skipped_ids_with(items.drop_last(), reason).push(items.last().id@)
    } else {
        skipped_ids_with(items.drop_last(), reason)
    }
}

/// The ids, in order, of the pending items with the given reason.
pub open spec fn pending_ids_with(items: Seq<RestorePendingItem>, reason: RestorePendingReason) -> Seq<Seq<char>>
    decreases items.len(),
{
    if items.len() == 0 {
        Seq::empty()
    } else if items.last().reason == reason {
        pending_ids_with(items.drop_last(), reason).push(items.last().id@)
    } else {
        pending_ids_with(items.drop_last(), reason)
    }
}

/// Result of a restore operation.
#[derive(Debug)]
pub struct RestoreResult {
    /// Items that were restored (or, in a dry run, would be).
    pub restored: Vec<String>,
    /// Items that were skipped.
    pub skipped: Vec<String>,
    /// Skipped items with their reasons.
    pub skipped_details: Vec<RestoreSkippedItem>,
    /// External configs that need manual handling.
    pub external_pending: Vec<String>,
    /// Pending items with their reasons.
    pub pending_details: Vec<RestorePendingItem>,
    /// Whether this was a dry run (no actual changes made).
    pub is_dry_run: bool,
    /// Whether the checksum was verified successfully.
    pub checksum_valid: Option<bool>,
}

impl Default for RestoreResult {
    fn default() -> (r: Self)
        ensures
            r.restored@.len() == 0,
            r.skipped@.len() == 0,
            r.skipped_details@.len() == 0,
            r.external_pending@.len() == 0,
            r.pending_details@.len() == 0,
            !r.is_dry_run,
            r.checksum_valid is None,
    {
        RestoreResult {
            restored: Vec::new(),
            skipped: Vec::new(),
            skipped_details: Vec::new(),
            external_pending: Vec::new(),
            pending_details: Vec::new(),
            is_dry_run: false,
            checksum_valid: None,
        }
    }
}

impl RestoreResult {
    /// Record an entry that was skipped, with its reason.
    pub fn add_skipped(&mut self, id: &str, reason: RestoreSkipReason)
        ensures
            views(final(self).skipped@) == views(old(self).skipped@).push(id@),
            final(self).skipped_details@.len() == old(self).skipped_details@.len() + 1,
            final(self).skipped_details@.drop_last() == old(self).skipped_details@,
            final(self).skipped_details@.last().id@ == id@,
            final(self).skipped_details@.last().reason == reason,
            final(self).restored == old(self).restored,
            final(self).external_pending == old(self).external_pending,
            final(self).pending_details == old(self).pending_details,
            final(self).is_dry_run == old(self).is_dry_run,
            final(self).checksum_valid == old(self).checksum_valid,
    {
        let ghost before = self.skipped@;
        self.skipped.push(text(id));
        assert(views(self.skipped@) =~= views(before).push(id@));
        let ghost details = self.skipped_details@;
        self.skipped_details.push(RestoreSkippedItem { id: text(id), reason });
        assert(self.skipped_details@.drop_last() =~= details);
    }

    /// Record an entry that needs manual handling, with its reason.
    pub fn add_pending(&mut self, id: &str, reason: RestorePendingReason)
        ensures
            views(final(self).external_pending@) == views(old(self).external_pending@).push(id@),
            final(self).pending_details@.len() == old(self).pending_details@.len() + 1,
            final(self).pending_details@.drop_last() == old(self).pending_details@,
            final(self).pending_details@.last().id@ == id@,
            final(self).pending_details@.last().reason == reason,
            final(self).restored == old(self).restored,
            final(self).skipped == old(self).skipped,
            final(self).skipped_details == old(self).skipped_details,
            final(self).is_dry_run == old(self).is_dry_run,
            final(self).checksum_valid == old(self).checksum_valid,
    {
        let ghost before = self.external_pending@;
        self.external_pending.push(text(id));
        assert(views(self.external_pending@) =~= views(before).push(id@));
        let ghost details = self.pending_details@;
        self.pending_details.push(RestorePendingItem { id: text(id), reason });
        assert(self.pending_details@.drop_last() =~= details);
    }

    /// Check if anything was restored.
    pub fn has_changes(&self) -> (r: bool)
        ensures
            r == (self.restored@.len() > 0),
    {
        !self.restored.is_empty()
    }

    /// Check if restore had any skipped or pending conflicts.
    pub fn has_conflicts(&self) -> (r: bool)
        ensures
            r == (self.skipped_details@.len() > 0 || self.pending_details@.len() > 0),
    {
        !self.skipped_details.is_empty() || !self.pending_details.is_empty()
    }

    /// Count skipped items by reason.
    pub fn skipped_count_by_reason(&self, reason: RestoreSkipReason) -> (r: usize)
        ensures
            r == skipped_ids_with(self.skipped_details@, reason).len(),
    {
        self.skipped_ids_by_reason(reason).len()
    }

    /// Count pending items by reason.
    pub fn pending_count_by_reason(&self, reason: RestorePendingReason) -> (r: usize)
        ensures
            r == pending_ids_with(self.pending_details@, reason).len(),
    {
        self.pending_ids_by_reason(reason).len()
    }

    /// Return skipped item ids for a specific reason, in the order they were recorded.
    pub fn skipped_ids_by_reason(&self, reason: RestoreSkipReason) -> (r: Vec<&str>)
        ensures
            r@.map_values(|s: &str| s@) == skipped_ids_with(self.skipped_details@, reason),
    {
        let mut out: Vec<&str> = Vec::new();
        let n = self.skipped_details.len();
        let mut i: usize = 0;
        while i < n
            invariant
                n == self.skipped_details@.len(),
                i <= n,
                out@.len() <= i,
                out@.map_values(|s: &str| s@) == skipped_ids_with(self.skipped_details@.subrange(0, i as int), reason),
            decreases n - i,
        {
            let item = &self.skipped_details[i];
            let ghost before = out@;
            proof {
                assert(self.skipped_details@.subrange(0, i + 1).drop_last() =~= self.skipped_details@.subrange(0, i as int));
            }
            if item.reason == reason {
                out.push(item.id.as_str());
                assert(out@.map_values(|s: &str| s@) =~= before.map_values(|s: &str| s@).push(item.id@));
            }
            i += 1;
        }
        assert(self.skipped_details@.subrange(0, n as int) =~= self.skipped_details@);
        out
    }

    /// Return pending item ids for a specific reason, in the order they were recorded.
    pub fn pending_ids_by_reason(&self, reason: RestorePendingReason) -> (r: Vec<&str>)
        ensures
            r@.map_values(|s: &str| s@) == pending_ids_with(self.pending_details@, reason),
    {
        let mut out: Vec<&str> = Vec::new();
        let n = self.pending_details.len();
        let mut i: usize = 0;
        while i < n
            invariant
                n == self.pending_details@.len(),
                i <= n,
                out@.len() <= i,
                out@.map_values(|s: &str| s@) == pending_ids_with(self.pending_details@.subrange(0, i as int), reason),
            decreases n - i,
        {
            let item = &self.pending_details[i];
            let ghost before = out@;
            proof {
                assert(self.pending_details@.subrange(0, i + 1).drop_last() =~= self.pending_details@.subrange(0, i as int));
            }
            if item.reason == reason {
                out.push(item.id.as_str());
                assert(out@.map_values(|s: &str| s@) =~= before.map_values(|s: &str| s@).push(item.id@));
            }
            i += 1;
        }
        assert(self.pending_details@.subrange(0, n as int) =~= self.pending_details@);
        out
    }

    /// Get total item count: restored and skipped.
    pub fn total(&self) -> (r: usize)
        requires
            self.restored@.len() + self.skipped@.len() <= usize::MAX,
        ensures
            r == self.restored@.len() + self.skipped@.len(),
    {
        self.restored.len() + self.skipped.len()
    }

    /// Would this restore have made changes (for dry run results).
    pub fn would_change(&self) -> (r: bool)
        ensures
            r == (self.restored@.len() > 0 || self.checksum_valid == Some(false)),
    {
        !self.restored.is_empty() || match self.checksum_valid {
            Some(v) => !v,
            None => false,
        }
    }
}

/// What a restore does with one entry of the backup.
#[derive(Debug, Clone, Copy, PartialEq, Eq, Structural)]
pub enum RestoreAction {
    /// Leave it, for this reason.
    Skip(RestoreSkipReason),
    /// Leave it to be handled by hand, for this reason.
    Pend(RestorePendingReason),
    /// Report it as restored without writing anything (dry run).
    Preview,
    /// Write it and report it as restored.
    Write,
}

/// The action for an entry whose target may exist already: an existing
/// target is kept unless overwriting is allowed; a dry run writes nothing.
pub open spec fn entry_action(target_exists: bool, overwrite: bool, dry_run: bool) -> RestoreAction {
    if target_exists && !overwrite {
        RestoreAction::Skip(RestoreSkipReason::ExistsConflict)
    } else if dry_run {
        RestoreAction::Preview
    } else {
        RestoreAction::Write
    }
}

/// Decide what to do with an entry of the backup, given whether its target
/// exists.
pub fn decide_entry(target_exists: bool, options: &RestoreOptions) -> (r: RestoreAction)
    ensures
        r == entry_action(target_exists, options.overwrite_existing, options.dry_run),
{
    if target_exists && !options.overwrite_existing {
        RestoreAction::Skip(RestoreSkipReason::ExistsConflict)
    } else if options.dry_run {
        RestoreAction::Preview
    } else {
        RestoreAction::Write
    }
}

/// Where the data of an external config goes on restore.
#[derive(Debug, Clone, Copy, PartialEq, Eq, Structural)]
pub enum ImportTargetKind {
    /// It is never written back.
    ReadOnly,
    /// It is written to a file.
    File,
    /// It is piped to a command.
    Command,
    /// It is handed to a function of the application.
    Handler,
}

/// The action for an external config of the backup: an unknown one waits
/// for manual handling, a read-only one is skipped, a file target follows
/// the rule of `entry_action`, and the others run unless in a dry run.
pub open spec fn external_action(
    target: Option<ImportTargetKind>,
    dest_exists: bool,
    overwrite: bool,
    dry_run: bool,
) -> RestoreAction {
    match target {
        None => RestoreAction::Pend(RestorePendingReason::UnknownExternalConfig),
        Some(ImportTargetKind::ReadOnly) => RestoreAction::Skip(RestoreSkipReason::ReadOnlyImportTarget),
        Some(ImportTargetKind::File) => entry_action(dest_exists, overwrite, dry_run),
        Some(_) => if dry_run {
            RestoreAction::Preview
        } else {
            RestoreAction::Write
        },
    }
}

/// Decide what to do with an external config of the backup, given how the
/// application registered it (`None`: not at all) and, for a file target,
/// whether the file exists.
pub fn decide_external(target: Option<ImportTargetKind>, dest_exists: bool, options: &RestoreOptions) -> (r: RestoreAction)
    ensures
        r == external_action(target, dest_exists, options.overwrite_existing, options.dry_run),
{
    match target {
        None => RestoreAction::Pend(RestorePendingReason::UnknownExternalConfig),
        Some(ImportTargetKind::ReadOnly) => RestoreAction::Skip(RestoreSkipReason::ReadOnlyImportTarget),
        Some(ImportTargetKind::File) => decide_entry(dest_exists, options),
        Some(_) => if options.dry_run {
            RestoreAction::Preview
        } else {
            RestoreAction::Write
        },
    }
}

/// Whether a name passes a filter: an empty filter passes every name.
pub fn is_selected(filter: &Vec<String>, name: &str) -> (r: bool)
    ensures
        r == (filter@.len() == 0 || views(filter@).contains(name@)),
{
    filter.len() == 0 || contains_str(filter, name)
}

impl RestoreResult {
    /// What recording an entry with `id` and `action` does to the lists:
    /// a skipped or pending entry is added to its list and its details, a
    /// restored one to the restored list; nothing else changes.
    pub open spec fn recorded(&self, after: &Self, id: Seq<char>, action: RestoreAction) -> bool {
        &&& match action {
            RestoreAction::Skip(reason) => {
                &&& views(after.skipped@) == views(self.skipped@).push(id)
                &&& after.skipped_details@.drop_last() == self.skipped_details@
                &&& after.skipped_details@.len() == self.skipped_details@.len() + 1
                &&& after.skipped_details@.last().id@ == id
                &&& after.skipped_details@.last().reason == reason
                &&& after.restored == self.restored
                &&& after.external_pending == self.external_pending
                &&& after.pending_details == self.pending_details
            },
            RestoreAction::Pend(reason) => {
                &&& views(after.external_pending@) == views(self.external_pending@).push(id)
                &&& after.pending_details@.drop_last() == self.pending_details@
                &&& after.pending_details@.len() == self.pending_details@.len() + 1
                &&& after.pending_details@.last().id@ == id
                &&& after.pending_details@.last().reason == reason
                &&& after.restored == self.restored
                &&& after.skipped == self.skipped
                &&& after.skipped_details == self.skipped_details
            },
            _ => {
                &&& views(after.restored@) == views(self.restored@).push(id)
                &&& after.skipped == self.skipped
                &&& after.skipped_details == self.skipped_details
                &&& after.external_pending == self.external_pending
                &&& after.pending_details == self.pending_details
            },
        }
        &&& after.is_dry_run == self.is_dry_run
        &&& after.checksum_valid == self.checksum_valid
    }

    /// Record what was done with an entry.
    pub fn record(&mut self, id: &str, action: RestoreAction)
        ensures
            old(self).recorded(&*final(self), id@, action),
    {
        match action {
            RestoreAction::Skip(reason) => self.add_skipped(id, reason),
            RestoreAction::Pend(reason) => self.add_pending(id, reason),
            _ => {
                let ghost before = self.restored@;
                self.restored.push(text(id));
                assert(views(self.restored@) =~= views(before).push(id@));
            },
        }
    }

    /// Whether the skipped ids and the skipped details name the same items,
    /// and likewise the pending ones.
    pub open spec fn details_in_step(&self) -> bool {
        &&& views(self.skipped@) == self.skipped_details@.map_values(|d: RestoreSkippedItem| d.id@)
        &&& views(self.external_pending@) == self.pending_details@.map_values(|d: RestorePendingItem| d.id@)
    }
}

/// The refusal of a backup whose manifest version cannot be restored.
pub open spec fn unsupported_version_message(path: Seq<char>, version: nat) -> Seq<char> {
    path + ": "@ + version_warning(version)
}

/// Check that a backup can be restored: its manifest version is supported,
/// and a password is given where the data is encrypted.
pub fn check_restore_allowed(backup_path: &str, version: u32, requires_password: bool, has_password: bool) -> (r: Result<(), Error>)
    ensures
        !is_supported_version(version) ==> (r matches Err(Error::InvalidBackup(m))
            && m@ == unsupported_version_message(backup_path@, version as nat)),
        is_supported_version(version) && requires_password && !has_password ==> r matches Err(Error::PasswordRequired),
        is_supported_version(version) && !(requires_password && !has_password) ==> r is Ok,
{
    if !is_manifest_version_supported(version) {
        let mut m = join2(backup_path, ": ");
        m.append("Backup manifest version ");
        let v = decimal_text(version as u64);
        m.append(v.as_str());
        m.append(" is not supported (supported: ");
        let lo = decimal_text(super::types::MANIFEST_VERSION_MIN_SUPPORTED as u64);
        m.append(lo.as_str());
        m.append("-");
        let hi = decimal_text(super::types::MANIFEST_VERSION_MAX_SUPPORTED as u64);
        m.append(hi.as_str());
        m.append(")");
        return Err(Error::InvalidBackup(m));
    }
    if requires_password && !has_password {
        return Err(Error::PasswordRequired);
    }
    Ok(())
}

/// Whether a manifest version can be restored.
pub open spec fn is_supported_version(version: u32) -> bool {
    super::types::MANIFEST_VERSION_MIN_SUPPORTED <= version <= super::types::MANIFEST_VERSION_MAX_SUPPORTED
}

/// The refusal of a backup whose data archive does not match its checksum.
pub open spec fn checksum_message(path: Seq<char>) -> Seq<char> {
    path + ": Data archive checksum verification failed - backup may be corrupted"@
}

/// Check the data archive against the manifest's checksum, when asked to
/// and when the manifest has one; `actual` is the archive's checksum,
/// computed only then. The answer is whether it was checked and matched.
pub fn check_checksum(backup_path: &str, verify: bool, expected: Option<&str>, actual: Option<&str>) -> (r: Result<Option<bool>, Error>)
    requires
        verify && expected is Some ==> actual is Some,
    ensures
        !verify || expected is None ==> r matches Ok(None),
        verify && expected is Some && expected->0@ == actual->0@ ==> r matches Ok(Some(true)),
        verify && expected is Some && expected->0@ != actual->0@ ==> (r matches Err(Error::InvalidBackup(m))
            && m@ == checksum_message(backup_path@)),
{
    if !verify {
        return Ok(None);
    }
    match (expected, actual) {
        (Some(e), Some(a)) => {
            if str_eq(e, a) {
                Ok(Some(true))
            } else {
                Err(Error::InvalidBackup(join2(backup_path, ": Data archive checksum verification failed - backup may be corrupted")))
            }
        },
        _ => Ok(None),
    }
}

/// The sub-settings to restore: those the options name, or every one the
/// backup holds when the options name none.
pub open spec fn sub_settings_restored(options: RestoreOptions, contents: BackupContents) -> Map<Seq<char>, Seq<Seq<char>>> {
    if options.restore_sub_settings.lists() == Map::<Seq<char>, Seq<Seq<char>>>::empty() {
        contents.sub_settings.lists()
    } else {
        options.restore_sub_settings.lists()
    }
}

/// The sub-settings categories to restore, each once, with the items to
/// restore from it (an empty list means all of them).
pub fn sub_settings_to_restore(options: &RestoreOptions, contents: &BackupContents) -> (r: Vec<(String, Vec<String>)>)
    ensures
        forall|i: int, j: int| 0 <= i < j < r@.len() ==> (#[trigger] r@[i]).0@ != (#[trigger] r@[j]).0@,
        forall|i: int| 0 <= i < r@.len() ==> sub_settings_restored(*options, *contents).get((#[trigger] r@[i]).0@)
            == Some(views(r@[i].1@)),
        forall|k: Seq<char>| #[trigger] sub_settings_restored(*options, *contents).contains_key(k)
            ==> exists|i: int| 0 <= i < r@.len() && (#[trigger] r@[i]).0@ == k,
{
    if options.restore_sub_settings.is_empty() {
        contents.sub_settings.pairs()
    } else {
        options.restore_sub_settings.pairs()
    }
}

/// A dry run writes nothing: whatever exists and whatever the overwrite
/// setting, no entry and no external config is written.
pub proof fn law_dry_run_writes_nothing(
    target_exists: bool,
    overwrite: bool,
    target: Option<ImportTargetKind>,
)
    ensures
        entry_action(target_exists, overwrite, true) != RestoreAction::Write,
        external_action(target, target_exists, overwrite, true) != RestoreAction::Write,
{
}

/// Without overwriting, an existing entry is never replaced: it is
/// skipped as a conflict, in a dry run too.
pub proof fn law_existing_entries_kept(dry_run: bool)
    ensures
        entry_action(true, false, dry_run) == RestoreAction::Skip(RestoreSkipReason::ExistsConflict),
        external_action(Some(ImportTargetKind::File), true, false, dry_run)
            == RestoreAction::Skip(RestoreSkipReason::ExistsConflict),
{
}

/// Recording keeps the skipped and pending id lists in step with their
/// detailed records (each detail carries the same id as its list entry).
pub proof fn law_record_keeps_details_in_step(a: RestoreResult, b: RestoreResult, id: Seq<char>, action: RestoreAction)
    requires
        a.details_in_step(),
        a.recorded(&b, id, action),
    ensures
        b.details_in_step(),
{
    match action {
        RestoreAction::Skip(_) => {
            let f = |d: RestoreSkippedItem| d.id@;
            assert(b.skipped_details@ =~= a.skipped_details@.push(b.skipped_details@.last()));
            assert(b.skipped_details@.map_values(f) =~= a.skipped_details@.map_values(f).push(id));
        },
        RestoreAction::Pend(_) => {
            let f = |d: RestorePendingItem| d.id@;
            assert(b.pending_details@ =~= a.pending_details@.push(b.pending_details@.last()));
            assert(b.pending_details@.map_values(f) =~= a.pending_details@.map_values(f).push(id));
        },
        _ => {},
    }
}

/// Recording a skipped entry adds its id at the end of the ids with its
/// reason, and leaves the ids of every other reason as they were; a
/// recorded entry of another kind leaves all of them as they were.
pub proof fn law_record_counts_by_reason(
    a: RestoreResult,
    b: RestoreResult,
    id: Seq<char>,
    action: RestoreAction,
    reason: RestoreSkipReason,
)
    requires
        a.recorded(&b, id, action),
    ensures
        action == RestoreAction::Skip(reason) ==> skipped_ids_with(b.skipped_details@, reason)
            == skipped_ids_with(a.skipped_details@, reason).push(id),
        action != RestoreAction::Skip(reason) ==> skipped_ids_with(b.skipped_details@, reason)
            == skipped_ids_with(a.skipped_details@, reason),
{
    if action is Skip {
        assert(b.skipped_details@.drop_last() == a.skipped_details@);
    }
}

/// Recording an entry that needs manual handling adds its id at the end of
/// the ids with its reason and leaves the other reasons' ids as they were.
pub proof fn law_record_pending_by_reason(
    a: RestoreResult,
    b: RestoreResult,
    id: Seq<char>,
    action: RestoreAction,
    reason: RestorePendingReason,
)
    requires
        a.recorded(&b, id, action),
    ensures
        action == RestoreAction::Pend(reason) ==> pending_ids_with(b.pending_details@, reason)
            == pending_ids_with(a.pending_details@, reason).push(id),
        action != RestoreAction::Pend(reason) ==> pending_ids_with(b.pending_details@, reason)
            == pending_ids_with(a.pending_details@, reason),
{
    if action is Pend {
        assert(b.pending_details@.drop_last() == a.pending_details@);
    }
}

/// The id under which a profile's settings file is restored.
pub open spec fn profile_restore_id(target: Seq<char>, settings_file: Seq<char>) -> Seq<char> {
    "profiles/"@ + target + "/"@ + settings_file
}

/// The profiles a restore takes from a backup, as (profile in the backup,
/// profile restored to, restore id): the one profile asked for, if the
/// backup holds it, under the name asked for (or its own); else every
/// profile of the backup under its own name.
pub open spec fn profile_restore_plan(
    in_backup: Seq<Seq<char>>,
    restore_profile: Option<Seq<char>>,
    restore_as: Option<Seq<char>>,
    settings_file: Seq<char>,
) -> Seq<(Seq<char>, Seq<char>, Seq<char>)> {
    match restore_profile {
        Some(p) => if in_backup.contains(p) {
            let target = match restore_as {
                Some(t) => t,
                None => p,
            };
            seq![(p, target, profile_restore_id(target, settings_file))]
        } else {
            Seq::empty()
        },
        None => in_backup.map_values(|n: Seq<char>| (n, n, profile_restore_id(n, settings_file))),
    }
}

/// The views of a plan's triples.
pub open spec fn triple_views(s: Seq<(String, String, String)>) -> Seq<(Seq<char>, Seq<char>, Seq<char>)> {
    s.map_values(|t: (String, String, String)| (t.0@, t.1@, t.2@))
}

fn restore_id(target: &str, settings_file: &str) -> (r: String)
    ensures
        r@ == profile_restore_id(target@, settings_file@),
{
    let head = join3("profiles/", target, "/");
    join2(head.as_str(), settings_file)
}

/// Plan the restore of profile settings from the profiles a backup holds;
/// what is done with each is then `decide_entry`'s choice.
pub fn plan_profile_restore(
    in_backup: &Vec<String>,
    restore_profile: Option<&str>,
    restore_as: Option<&str>,
    settings_file: &str,
) -> (r: Vec<(String, String, String)>)
    ensures
        triple_views(r@) == profile_restore_plan(
            views(in_backup@),
            match restore_profile {
                Some(p) => Some(p@),
                None => None,
            },
            match restore_as {
                Some(t) => Some(t@),
                None => None,
            },
            settings_file@,
        ),
{
    let mut out: Vec<(String, String, String)> = Vec::new();
    match restore_profile {
        Some(p) => {
            if contains_str(in_backup, p) {
                let target = match restore_as {
                    Some(t) => t,
                    None => p,
                };
                let id = restore_id(target, settings_file);
                out.push((text(p), text(target), id));
                assert(triple_views(out@) =~= seq![(p@, target@, profile_restore_id(target@, settings_file@))]);
            } else {
                assert(triple_views(out@) =~= Seq::<(Seq<char>, Seq<char>, Seq<char>)>::empty());
            }
        },
        None => {
            let n = in_backup.len();
            let mut i: usize = 0;
            while i < n
                invariant
                    n == in_backup@.len(),
                    i <= n,
                    triple_views(out@) == views(in_backup@).subrange(0, i as int).map_values(
                        |x: Seq<char>| (x, x, profile_restore_id(x, settings_file@)),
                    ),
                decreases n - i,
            {
                let ghost before = triple_views(out@);
                let name = &in_backup[i];
                let id = restore_id(name.as_str(), settings_file);
                let a = name.clone();
                let b = name.clone();
                out.push((a, b, id));
                assert(triple_views(out@) =~= before.push((name@, name@, profile_restore_id(name@, settings_file@))));
                assert(views(in_backup@).subrange(0, i + 1) =~= views(in_backup@).subrange(0, i as int).push(name@));
                assert(triple_views(out@) =~= views(in_backup@).subrange(0, i + 1).map_values(
                    |x: Seq<char>| (x, x, profile_restore_id(x, settings_file@)),
                ));
                i += 1;
            }
            assert(views(in_backup@).subrange(0, n as int) =~= views(in_backup@));
        },
    }
    out
}

/// Whether an entry of sub-settings is restored: no items were asked for,
/// or it is one of them.
pub open spec fn entry_selected(items_filter: Seq<Seq<char>>, name: Seq<char>) -> bool {
    items_filter.len() == 0 || items_filter.contains(name)
}

/// The entries of a sub-settings type a restore takes, with their restore
/// ids (`{sub_type}/{name}`), in the backup's order.
pub open spec fn flat_restore_plan(
    sub_type: Seq<char>,
    entries: Seq<Seq<char>>,
    items_filter: Seq<Seq<char>>,
) -> Seq<(Seq<char>, Seq<char>)> {
    entries.filter(|n: Seq<char>| entry_selected(items_filter, n)).map_values(
        |n: Seq<char>| (n, sub_type + "/"@ + n),
    )
}

/// The views of a list of pairs of strings.
pub open spec fn pair_views(s: Seq<(String, String)>) -> Seq<(Seq<char>, Seq<char>)> {
    s.map_values(|t: (String, String)| (t.0@, t.1@))
}

/// Plan the restore of the entries of a sub-settings type that is not
/// profiled: those the items filter selects, each with its restore id; what
/// is done with each is then `decide_entry`'s choice.
pub fn plan_flat_sub_settings_restore(
    sub_type: &str,
    entries: &Vec<String>,
    items_filter: &Vec<String>,
) -> (r: Vec<(String, String)>)
    ensures
        pair_views(r@) == flat_restore_plan(sub_type@, views(entries@), views(items_filter@)),
{
    let ghost pred = |n: Seq<char>| entry_selected(views(items_filter@), n);
    let ghost f = |n: Seq<char>| (n, sub_type@ + "/"@ + n);
    let mut out: Vec<(String, String)> = Vec::new();
    let n = entries.len();
    let mut i: usize = 0;
    while i < n
        invariant
            n == entries@.len(),
            i <= n,
            pred == (|n: Seq<char>| entry_selected(views(items_filter@), n)),
            f == (|n: Seq<char>| (n, sub_type@ + "/"@ + n)),
            pair_views(out@) == views(entries@).subrange(0, i as int).filter(pred).map_values(f),
        decreases n - i,
    {
        let name = &entries[i];
        let ghost before = pair_views(out@);
        proof {
            assert(views(entries@).subrange(0, i + 1).drop_last() =~= views(entries@).subrange(0, i as int));
            assert(views(entries@).subrange(0, i + 1).last() == name@);
            reveal(Seq::filter);
        }
        if items_filter.len() == 0 || contains_str(items_filter, name.as_str()) {
            let id = join3(sub_type, "/", name.as_str());
            let c = name.clone();
            assert(views(items_filter@).len() == items_filter@.len());
            assert(pred(name@));
            out.push((c, id));
            proof {
                let sel = views(entries@).subrange(0, i as int).filter(pred);
                assert(pair_views(out@) =~= before.push((name@, sub_type@ + "/"@ + name@)));
                assert(views(entries@).subrange(0, i + 1).filter(pred) == sel.push(name@));
                assert(pair_views(out@) =~= sel.push(name@).map_values(f));
            }
        } else {
            proof {
                assert(views(items_filter@).len() == items_filter@.len());
                assert(!pred(name@));
                assert(views(entries@).subrange(0, i + 1).filter(pred) == views(entries@).subrange(0, i as int).filter(pred));
            }
        }
        i += 1;
    }
    proof {
        assert(views(entries@).subrange(0, n as int) =~= views(entries@));
    }
    out
}

/// A step of restoring profiled sub-settings: an entry to restore (from a
/// profile of the backup, to a profile of the target or, where the target
/// has no profiles, to its root), or an item that needs the user.
#[derive(Debug, Clone, PartialEq, Eq)]
pub enum ProfiledRestoreStep {
    /// Restore `entry` of `source_profile` to `target_profile` (the root
    /// where `None`), under the restore id `id`.
    Entry { source_profile: String, target_profile: Option<String>, entry: String, id: String },
    /// Nothing can be restored for `id` without the user.
    Pending { id: String, reason: RestorePendingReason },
}

/// A step as plain values: the pending reason (none for an entry), the
/// source profile, the target profile, the entry and the id.
pub open spec fn step_view(s: ProfiledRestoreStep) -> (
    Option<RestorePendingReason>,
    Seq<char>,
    Option<Seq<char>>,
    Seq<char>,
    Seq<char>,
) {
    match s {
        ProfiledRestoreStep::Entry { source_profile, target_profile, entry, id } => (
            None,
            source_profile@,
            match target_profile {
                Some(t) => Some(t@),
                None => None,
            },
            entry@,
            id@,
        ),
        ProfiledRestoreStep::Pending { id, reason } => (Some(reason), Seq::empty(), None, Seq::empty(), id@),
    }
}

/// The views of a list of steps.
pub open spec fn steps_view(s: Seq<ProfiledRestoreStep>) -> Seq<
    (Option<RestorePendingReason>, Seq<char>, Option<Seq<char>>, Seq<char>, Seq<char>),
> {
    s.map_values(|x: ProfiledRestoreStep| step_view(x))
}

/// The profiles of a backup with their items, as plain values.
pub open spec fn profiles_view(s: Seq<(String, Vec<String>)>) -> Seq<(Seq<char>, Seq<Seq<char>>)> {
    s.map_values(|x: (String, Vec<String>)| (x.0@, views(x.1@)))
}

/// The id of a restored entry: `{type}/{profile}/{entry}`, or
/// `{type}/{entry}` where it goes to the root.
pub open spec fn profiled_entry_id(sub_type: Seq<char>, target: Option<Seq<char>>, entry: Seq<char>) -> Seq<char> {
    match target {
        Some(t) => sub_type + "/"@ + t + "/"@ + entry,
        None => sub_type + "/"@ + entry,
    }
}

/// The steps restoring the items of one profile that the items filter
/// selects, in order.
pub open spec fn entry_steps(
    sub_type: Seq<char>,
    source: Seq<char>,
    target: Option<Seq<char>>,
    items: Seq<Seq<char>>,
    items_filter: Seq<Seq<char>>,
) -> Seq<(Option<RestorePendingReason>, Seq<char>, Option<Seq<char>>, Seq<char>, Seq<char>)>
    decreases items.len(),
{
    if items.len() == 0 {
        Seq::empty()
    } else {
        let rest = entry_steps(sub_type, source, target, items.drop_last(), items_filter);
        let it = items.last();
        if entry_selected(items_filter, it) {
            rest.push((None, source, target, it, profiled_entry_id(sub_type, target, it)))
        } else {
            rest
        }
    }
}

/// The items the backup holds for a profile (the first listing of it).
pub open spec fn profile_items(in_backup: Seq<(Seq<char>, Seq<Seq<char>>)>, p: Seq<char>) -> Option<Seq<Seq<char>>>
    decreases in_backup.len(),
{
    if in_backup.len() == 0 {
        None
    } else if in_backup[0].0 == p {
        Some(in_backup[0].1)
    } else {
        profile_items(in_backup.drop_first(), p)
    }
}

/// The steps restoring every profile of the backup under its own name.
pub open spec fn all_profile_steps(
    sub_type: Seq<char>,
    in_backup: Seq<(Seq<char>, Seq<Seq<char>>)>,
    items_filter: Seq<Seq<char>>,
) -> Seq<(Option<RestorePendingReason>, Seq<char>, Option<Seq<char>>, Seq<char>, Seq<char>)>
    decreases in_backup.len(),
{
    if in_backup.len() == 0 {
        Seq::empty()
    } else {
        let last = in_backup.last();
        all_profile_steps(sub_type, in_backup.drop_last(), items_filter) + entry_steps(
            sub_type,
            last.0,
            Some(last.0),
            last.1,
            items_filter,
        )
    }
}

/// How profiled sub-settings are restored.
///
/// To a target with profiles: the profile asked for, under the name asked
/// for (or its own), or else every profile of the backup under its own
/// name; each entry the items filter selects. A profile asked for that the
/// backup lacks is pending (`MissingSourceProfile`, id `{type}/{profile}`).
///
/// To a target without profiles: the entries of the profile asked for go
/// to the root (none if the backup lacks it); with no profile asked for,
/// the type is pending (`ProfileSelectionRequired`, id `{type}`).
pub open spec fn profiled_restore_plan(
    sub_type: Seq<char>,
    in_backup: Seq<(Seq<char>, Seq<Seq<char>>)>,
    target_profiled: bool,
    restore_profile: Option<Seq<char>>,
    restore_as: Option<Seq<char>>,
    items_filter: Seq<Seq<char>>,
) -> Seq<(Option<RestorePendingReason>, Seq<char>, Option<Seq<char>>, Seq<char>, Seq<char>)> {
    match restore_profile {
        Some(p) => match profile_items(in_backup, p) {
            Some(items) => if target_profiled {
                let target = match restore_as {
                    Some(t) => t,
                    None => p,
                };
                entry_steps(sub_type, p, Some(target), items, items_filter)
            } else {
                entry_steps(sub_type, p, None, items, items_filter)
            },
            None => if target_profiled {
                seq![(Some(RestorePendingReason::MissingSourceProfile), Seq::empty(), None, Seq::empty(), sub_type + "/"@ + p)]
            } else {
                Seq::empty()
            },
        },
        None => if target_profiled {
            all_profile_steps(sub_type, in_backup, items_filter)
        } else {
            seq![(Some(RestorePendingReason::ProfileSelectionRequired), Seq::empty(), None, Seq::empty(), sub_type)]
        },
    }
}

/// Append the steps restoring the selected items of one profile.
fn push_entry_steps(
    out: &mut Vec<ProfiledRestoreStep>,
    sub_type: &str,
    source: &str,
    target: Option<&str>,
    items: &Vec<String>,
    items_filter: &Vec<String>,
)
    ensures
        steps_view(final(out)@) == steps_view(old(out)@) + entry_steps(
            sub_type@,
            source@,
            match target {
                Some(t) => Some(t@),
                None => None,
            },
            views(items@),
            views(items_filter@),
        ),
{
    let ghost t = match target {
        Some(x) => Some(x@),
        None => None,
    };
    let ghost start = steps_view(out@);
    let n = items.len();
    let mut i: usize = 0;
    assert(views(items@).subrange(0, 0) =~= Seq::<Seq<char>>::empty());
    assert(start + Seq::empty() =~= start);
    while i < n
        invariant
            n == items@.len(),
            i <= n,
            t == match target {
                Some(x) => Some(x@),
                None => None,
            },
            steps_view(out@) == start + entry_steps(sub_type@, source@, t, views(items@).subrange(0, i as int),
                views(items_filter@)),
        decreases n - i,
    {
        let it = &items[i];
        let ghost before = steps_view(out@);
        proof {
            assert(views(items@).subrange(0, i + 1).drop_last() =~= views(items@).subrange(0, i as int));
            assert(views(items@).subrange(0, i + 1).last() == it@);
            assert(views(items_filter@).len() == items_filter@.len());
        }
        if items_filter.len() == 0 || contains_str(items_filter, it.as_str()) {
            let id = match target {
                Some(x) => {
                    let head = join3(sub_type, "/", x);
                    join3(head.as_str(), "/", it.as_str())
                },
                None => join3(sub_type, "/", it.as_str()),
            };
            let tg = match target {
                Some(x) => Some(text(x)),
                None => None,
            };
            let step = ProfiledRestoreStep::Entry { source_profile: text(source), target_profile: tg, entry: it.clone(), id };
            proof {
                assert(step_view(step) == (None::<RestorePendingReason>, source@, t, it@, profiled_entry_id(sub_type@, t, it@)));
            }
            out.push(step);
            proof {
                assert(steps_view(out@) =~= before.push(step_view(step)));
                assert(steps_view(out@) =~= start + entry_steps(sub_type@, source@, t, views(items@).subrange(0, i + 1),
                    views(items_filter@)));
            }
        }
        i += 1;
    }
    assert(views(items@).subrange(0, n as int) =~= views(items@));
}

/// Find the items the backup holds for a profile.
fn find_profile(in_backup: &Vec<(String, Vec<String>)>, p: &str) -> (r: Option<usize>)
    ensures
        match profile_items(profiles_view(in_backup@), p@) {
            Some(items) => r matches Some(i) && i < in_backup@.len() && in_backup@[i as int].0@ == p@
                && views(in_backup@[i as int].1@) == items,
            None => r is None,
        },
{
    let n = in_backup.len();
    let mut i: usize = 0;
    assert(profiles_view(in_backup@).subrange(0, n as int) =~= profiles_view(in_backup@));
    while i < n
        invariant
            n == in_backup@.len(),
            i <= n,
            profile_items(profiles_view(in_backup@), p@) == profile_items(profiles_view(in_backup@).subrange(
                i as int,
                n as int,
            ), p@),
        decreases n - i,
    {
        let ghost rest = profiles_view(in_backup@).subrange(i as int, n as int);
        assert(rest.drop_first() =~= profiles_view(in_backup@).subrange(i + 1, n as int));
        if str_eq(in_backup[i].0.as_str(), p) {
            return Some(i);
        }
        i += 1;
    }
    assert(profiles_view(in_backup@).subrange(n as int, n as int).len() == 0);
    None
}

/// Plan the restore of profiled sub-settings (see `profiled_restore_plan`);
/// what is done with each entry is then `decide_entry`'s choice.
pub fn plan_profiled_sub_settings_restore(
    sub_type: &str,
    in_backup: &Vec<(String, Vec<String>)>,
    target_profiled: bool,
    restore_profile: Option<&str>,
    restore_as: Option<&str>,
    items_filter: &Vec<String>,
) -> (r: Vec<ProfiledRestoreStep>)
    ensures
        steps_view(r@) == profiled_restore_plan(
            sub_type@,
            profiles_view(in_backup@),
            target_profiled,
            match restore_profile {
                Some(p) => Some(p@),
                None => None,
            },
            match restore_as {
                Some(t) => Some(t@),
                None => None,
            },
            views(items_filter@),
        ),
{
    let mut out: Vec<ProfiledRestoreStep> = Vec::new();
    assert(steps_view(out@) =~= Seq::empty());
    match restore_profile {
        Some(p) => match find_profile(in_backup, p) {
            Some(i) => {
                if target_profiled {
                    let target = match restore_as {
                        Some(t) => t,
                        None => p,
                    };
                    push_entry_steps(&mut out, sub_type, p, Some(target), &in_backup[i].1, items_filter);
                } else {
                    push_entry_steps(&mut out, sub_type, p, None, &in_backup[i].1, items_filter);
                }
                assert(steps_view(out@) =~= Seq::empty() + steps_view(out@));
            },
            None => {
                if target_profiled {
                    let step = ProfiledRestoreStep::Pending {
                        id: join3(sub_type, "/", p),
                        reason: RestorePendingReason::MissingSourceProfile,
                    };
                    out.push(step);
                    assert(steps_view(out@) =~= seq![step_view(step)]);
                }
            },
        },
        None => {
            if target_profiled {
                let n = in_backup.len();
                let mut i: usize = 0;
                while i < n
                    invariant
                        n == in_backup@.len(),
                        i <= n,
                        steps_view(out@) == all_profile_steps(sub_type@, profiles_view(in_backup@).subrange(0, i as int),
                            views(items_filter@)),
                    decreases n - i,
                {
                    proof {
                        let sub = profiles_view(in_backup@).subrange(0, i + 1);
                        assert(sub.drop_last() =~= profiles_view(in_backup@).subrange(0, i as int));
                        assert(sub.last() == (in_backup@[i as int].0@, views(in_backup@[i as int].1@)));
                    }
                    push_entry_steps(
                        &mut out,
                        sub_type,
                        in_backup[i].0.as_str(),
                        Some(in_backup[i].0.as_str()),
                        &in_backup[i].1,
                        items_filter,
                    );
                    i += 1;
                }
                assert(profiles_view(in_backup@).subrange(0, n as int) =~= profiles_view(in_backup@));
            } else {
                let step = ProfiledRestoreStep::Pending {
                    id: text(sub_type),
                    reason: RestorePendingReason::ProfileSelectionRequired,
                };
                out.push(step);
                assert(steps_view(out@) =~= seq![step_view(step)]);
            }
        },
    }
    out
}

/// A list with each run of equal neighbours kept once (`Vec::dedup`).
pub open spec fn dedup_adjacent(s: Seq<Seq<char>>) -> Seq<Seq<char>>
    decreases s.len(),
{
    if s.len() <= 1 {
        s
    } else if s.last() == s[s.len() - 2] {
        dedup_adjacent(s.drop_last())
    } else {
        dedup_adjacent(s.drop_last()).push(s.last())
    }
}

/// The file names under which an external config's data may lie in a
/// backup, in the order they are tried: the name the manifest records, the
/// archive name the config is registered with, and the config's own name;
/// equal neighbours kept once.
pub open spec fn external_file_candidates(
    manifest_name: Option<Seq<char>>,
    registered_name: Option<Seq<char>>,
    config_name: Seq<char>,
) -> Seq<Seq<char>> {
    let a = match manifest_name {
        Some(m) => seq![m],
        None => Seq::empty(),
    };
    let b = match registered_name {
        Some(x) => a.push(x),
        None => a,
    };
    dedup_adjacent(b.push(config_name))
}

/// The file names to try for an external config's data in a backup.
pub fn external_config_candidates(
    manifest_name: Option<&str>,
    registered_name: Option<&str>,
    config_name: &str,
) -> (r: Vec<String>)
    ensures
        views(r@) == external_file_candidates(
            match manifest_name {
                Some(m) => Some(m@),
                None => None,
            },
            match registered_name {
                Some(x) => Some(x@),
                None => None,
            },
            config_name@,
        ),
{
    let mut all: Vec<String> = Vec::new();
    match manifest_name {
        Some(m) => all.push(text(m)),
        None => {},
    }
    match registered_name {
        Some(x) => all.push(text(x)),
        None => {},
    }
    all.push(text(config_name));
    let ghost want = views(all@);
    proof {
        let a = match manifest_name {
            Some(m) => seq![m@],
            None => Seq::<Seq<char>>::empty(),
        };
        let b = match registered_name {
            Some(x) => a.push(x@),
            None => a,
        };
        assert(want =~= b.push(config_name@));
    }
    let mut out: Vec<String> = Vec::new();
    let n = all.len();
    let mut i: usize = 0;
    while i < n
        invariant
            n == all@.len(),
            want == views(all@),
            i <= n,
            views(out@) == dedup_adjacent(want.subrange(0, i as int)),
            i > 0 ==> out@.len() > 0 && views(out@).last() == want[i - 1],
        decreases n - i,
    {
        let ghost before = views(out@);
        let ghost sub = want.subrange(0, i + 1);
        proof {
            assert(sub.drop_last() =~= want.subrange(0, i as int));
            assert(sub.last() == want[i as int]);
            if i > 0 {
                assert(sub[sub.len() - 2] == want[i - 1]);
            }
        }
        if i == 0 || !str_eq(all[i].as_str(), out[out.len() - 1].as_str()) {
            out.push(all[i].clone());
            proof {
                assert(views(out@) =~= before.push(want[i as int]));
                if i == 0 {
                    assert(sub =~= seq![want[0]]);
                    assert(before.len() == 0);
                    assert(views(out@) =~= sub);
                }
            }
        }
        i += 1;
    }
    assert(want.subrange(0, n as int) =~= want);
    out
}

} // verus!

verus! {

/// What a restore does with an entry depends on its target as follows: it
/// is skipped as a conflict exactly when the target exists and overwriting
/// is off; any other entry is previewed in a dry run and written otherwise.
/// So an entry whose target does not exist is never a conflict, whatever
/// the overwrite flag, and overwriting turns every conflict into a write.
pub proof fn law_only_existing_targets_conflict(target_exists: bool, overwrite: bool, dry_run: bool)
    ensures
        (entry_action(target_exists, overwrite, dry_run) == RestoreAction::Skip(RestoreSkipReason::ExistsConflict))
            <==> (target_exists && !overwrite),
        !(target_exists && !overwrite) ==> entry_action(target_exists, overwrite, dry_run) == if dry_run {
            RestoreAction::Preview
        } else {
            RestoreAction::Write
        },
        entry_action(false, overwrite, false) == RestoreAction::Write,
        entry_action(false, overwrite, true) == RestoreAction::Preview,
        entry_action(target_exists, true, false) == RestoreAction::Write,
{
}

} // verus!
