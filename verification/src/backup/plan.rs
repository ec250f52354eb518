//! The decisions of backup creation and analysis: password rules, file
//! names, which parts of the settings go in, and what a manifest is warned
//! about.
use vstd::prelude::*;
use vstd::utf8::encode_utf8;

use super::types::{
    is_manifest_version_supported, BackupOptions, ExportCategory, ExportCategoryType, ExportType, ExternalConfig,
    ProfileEntry, SubSettingsManifestEntry, MANIFEST_VERSION_MAX_SUPPORTED, MANIFEST_VERSION_MIN_SUPPORTED,
};
use crate::credentials::opt_view;
use crate::error::Error;
use crate::text::{
    bool_chars, bool_text, contains_str, copy_strings, decimal, decimal_text, join3, push_char, text,
    utf8_shorter_than, views,
};

verus! {

/// Whether a character is white space in the sense of Unicode's
/// `White_Space` property (what `str::trim` removes).
pub open spec fn is_white_space(c: char) -> bool {
    let x = c as int;
    ||| 9 <= x <= 13
    ||| x == 32
    ||| x == 0x85
    ||| x == 0xA0
    ||| x == 0x1680
    ||| 0x2000 <= x <= 0x200A
    ||| x == 0x2028
    ||| x == 0x2029
    ||| x == 0x202F
    ||| x == 0x205F
    ||| x == 0x3000
}

/// Whether a string is empty or white space only.
pub open spec fn is_blank(s: Seq<char>) -> bool {
    forall|i: int| 0 <= i < s.len() ==> is_white_space(#[trigger] s[i])
}

/// Why a backup password is refused, or `None` when it is accepted: it may
/// not be blank and needs at least four bytes (in UTF-8).
pub open spec fn password_problem(p: Seq<char>) -> Option<Seq<char>> {
    if is_blank(p) {
        Some("Password cannot be empty or whitespace-only"@)
    } else if encode_utf8(p).len() < 4 {
        Some("Password must be at least 4 characters"@)
    } else {
        None
    }
}

fn white_space(c: char) -> (r: bool)
    ensures
        r == is_white_space(c),
{
    let x = c as u32;
    (9 <= x && x <= 13) || x == 32 || x == 0x85 || x == 0xA0 || x == 0x1680 || (0x2000 <= x && x <= 0x200A)
        || x == 0x2028 || x == 0x2029 || x == 0x202F || x == 0x205F || x == 0x3000
}

fn blank(s: &str) -> (r: bool)
    ensures
        r == is_blank(s@),
{
    let n = s.unicode_len();
    let mut i: usize = 0;
    while i < n
        invariant
            n == s@.len(),
            i <= n,
            forall|j: int| 0 <= j < i ==> is_white_space(#[trigger] s@[j]),
        decreases n - i,
    {
        if !white_space(s.get_char(i)) {
            return false;
        }
        i += 1;
    }
    true
}

/// Validate a backup password (minimum length, not white space only).
pub fn validate_password(password: Option<String>) -> (r: Result<Option<String>, Error>)
    ensures
        match password {
            None => (r matches Ok(None)),
            Some(p) => match password_problem(p@) {
                Some(m) => (r matches Err(Error::BackupFailed(e)) && e@ == m),
                None => (r matches Ok(Some(q)) && q == p),
            },
        },
{
    match password {
        Some(p) => {
            if blank(p.as_str()) {
                Err(Error::BackupFailed(text("Password cannot be empty or whitespace-only")))
            } else if utf8_shorter_than(p.as_str(), 4) {
                Err(Error::BackupFailed(text("Password must be at least 4 characters")))
            } else {
                Ok(Some(p))
            }
        },
        None => Ok(None),
    }
}

/// Whether a character is unsafe in a file name.
pub open spec fn is_unsafe_file_char(c: char) -> bool {
    c == '/' || c == '\\' || c == ':' || c == '*' || c == '?' || c == '"' || c == '<' || c == '>' || c == '|'
}

/// The character with an unsafe one replaced by `_`.
pub open spec fn safe_file_char(c: char) -> char {
    if is_unsafe_file_char(c) {
        '_'
    } else {
        c
    }
}

/// A name with each character that is unsafe in file names replaced by `_`.
pub open spec fn sanitized(s: Seq<char>) -> Seq<char> {
    Seq::new(s.len(), |i: int| safe_file_char(s[i]))
}

/// Sanitize a name for safe file system usage.
pub fn sanitize_filename(name: &str) -> (r: String)
    ensures
        r@ == sanitized(name@),
{
    let mut out = String::new();
    let n = name.unicode_len();
    let mut i: usize = 0;
    while i < n
        invariant
            n == name@.len(),
            i <= n,
            out@ == sanitized(name@.subrange(0, i as int)),
        decreases n - i,
    {
        let c = name.get_char(i);
        let d = if c == '/' || c == '\\' || c == ':' || c == '*' || c == '?' || c == '"' || c == '<' || c == '>'
            || c == '|' {
            '_'
        } else {
            c
        };
        let ghost before = out@;
        push_char(&mut out, d);
        assert(out@ =~= sanitized(name@.subrange(0, i + 1)));
        i += 1;
    }
    assert(name@.subrange(0, n as int) =~= name@);
    out
}

/// How an export type is shown to people.
pub open spec fn export_type_label(t: ExportType) -> Seq<char> {
    match t {
        ExportType::Full => "Full Backup"@,
        ExportType::SettingsOnly => "Settings Only"@,
        ExportType::Single { settings_type, name } => "Single "@ + settings_type@ + ": "@ + name@,
    }
}

/// Format an export type as a human-readable display string.
pub fn format_export_type(export_type: &ExportType) -> (r: String)
    ensures
        r@ == export_type_label(*export_type),
{
    match export_type {
        ExportType::Full => text("Full Backup"),
        ExportType::SettingsOnly => text("Settings Only"),
        ExportType::Single { settings_type, name } => {
            let mut r = join3("Single ", settings_type.as_str(), ": ");
            r.append(name.as_str());
            assert(r@ =~= "Single "@ + settings_type@ + ": "@ + name@);
            r
        },
    }
}

/// The file name of a new backup: the app name, the creation time, and a
/// suffix that names what the backup holds (or the one given).
pub open spec fn backup_name(
    app: Seq<char>,
    stamp: Seq<char>,
    export_type: ExportType,
    include_settings: bool,
    sub_settings: Seq<Seq<char>>,
    suffix: Option<Seq<char>>,
) -> Seq<char> {
    match suffix {
        Some(s) => app + "_"@ + stamp + "_"@ + sanitized(s) + ".rcman"@,
        None => match export_type {
            ExportType::Full => app + "_"@ + stamp + "_full.rcman"@,
            ExportType::SettingsOnly => app + "_"@ + stamp + "_"@ + (if !include_settings && sub_settings.len() == 1 {
                sub_settings[0]
            } else {
                "settings"@
            }) + ".rcman"@,
            ExportType::Single { name, .. } => app + "_"@ + sanitized(name@) + "_"@ + stamp + ".rcman"@,
        },
    }
}

/// The file name of a new backup, from the app name, the creation time
/// stamp (`YYYYMMDD_HHMMSS`) and an optional suffix.
pub fn backup_file_name(app_name: &str, timestamp: &str, options: &BackupOptions, suffix: Option<&str>) -> (r: String)
    ensures
        r@ == backup_name(
            app_name@,
            timestamp@,
            options.export_type,
            options.include_settings,
            views(options.include_sub_settings@),
            match suffix {
                Some(s) => Some(s@),
                None => None,
            },
        ),
{
    let mut r = join3(app_name, "_", timestamp);
    let ghost head = r@;
    match suffix {
        Some(s) => {
            r.append("_");
            let clean = sanitize_filename(s);
            r.append(clean.as_str());
            r.append(".rcman");
            assert(r@ =~= head + "_"@ + sanitized(s@) + ".rcman"@);
        },
        None => match &options.export_type {
            ExportType::Full => {
                r.append("_full.rcman");
            },
            ExportType::SettingsOnly => {
                r.append("_");
                if !options.include_settings && options.include_sub_settings.len() == 1 {
                    r.append(options.include_sub_settings[0].as_str());
                    assert(views(options.include_sub_settings@)[0] == options.include_sub_settings@[0]@);
                } else {
                    r.append("settings");
                }
                r.append(".rcman");
            },
            ExportType::Single { name, .. } => {
                let clean = sanitize_filename(name.as_str());
                let mut s = join3(app_name, "_", clean.as_str());
                s.append("_");
                s.append(timestamp);
                s.append(".rcman");
                return s;
            },
        },
    }
    r
}

/// Whether a backup with these options holds the main settings: when asked
/// for or in a full backup, never for a single entry.
pub fn includes_main_settings(options: &BackupOptions) -> (r: bool)
    ensures
        r == ((options.include_settings || options.export_type is Full) && !(options.export_type is Single)),
{
    let full = match &options.export_type {
        ExportType::Full => true,
        _ => false,
    };
    let single = match &options.export_type {
        ExportType::Single { .. } => true,
        _ => false,
    };
    (options.include_settings || full) && !single
}

/// The sub-settings categories a backup gathers whole: in a full backup
/// those asked for, or every registered one when none is; in a settings
/// backup those asked for; none for a single entry (handled on its own).
pub open spec fn sub_settings_chosen(options: BackupOptions, registered: Seq<Seq<char>>) -> Seq<Seq<char>> {
    match options.export_type {
        ExportType::Full => if options.include_sub_settings@.len() == 0 {
            registered
        } else {
            views(options.include_sub_settings@)
        },
        ExportType::SettingsOnly => views(options.include_sub_settings@),
        ExportType::Single { .. } => Seq::empty(),
    }
}

/// The sub-settings categories to back up whole, given the registered ones.
pub fn sub_settings_to_back_up(options: &BackupOptions, registered: &Vec<String>) -> (r: Vec<String>)
    ensures
        views(r@) == sub_settings_chosen(*options, views(registered@)),
{
    match &options.export_type {
        ExportType::Full => {
            if options.include_sub_settings.len() == 0 {
                copy_strings(registered)
            } else {
                copy_strings(&options.include_sub_settings)
            }
        },
        ExportType::SettingsOnly => copy_strings(&options.include_sub_settings),
        ExportType::Single { .. } => {
            let v: Vec<String> = Vec::new();
            assert(views(v@) =~= Seq::<Seq<char>>::empty());
            v
        },
    }
}

/// Whether a backup with these options gathers external configs: in a full
/// backup, or when some are asked for.
pub fn includes_external_configs(options: &BackupOptions) -> (r: bool)
    ensures
        r == (options.export_type is Full || options.include_external_configs@.len() > 0),
{
    let full = match &options.export_type {
        ExportType::Full => true,
        _ => false,
    };
    full || options.include_external_configs.len() > 0
}

/// Whether an external config id is wanted: every one in a full backup that
/// names none, else those named.
pub open spec fn external_wanted(options: BackupOptions, id: Seq<char>) -> bool {
    ||| (options.export_type is Full && options.include_external_configs@.len() == 0)
    ||| views(options.include_external_configs@).contains(id)
}

/// Whether the config at `i` is gathered: it is wanted and no config before
/// it has the same id (the first occurrence is kept).
pub open spec fn external_gathered(options: BackupOptions, ids: Seq<Seq<char>>, i: int) -> bool {
    external_wanted(options, ids[i]) && !ids.subrange(0, i).contains(ids[i])
}

/// The positions, in order, of the registered external configs (given by
/// their ids) that a backup gathers.
pub fn select_external_configs(options: &BackupOptions, ids: &Vec<String>) -> (r: Vec<usize>)
    ensures
        forall|a: int, b: int| 0 <= a < b < r@.len() ==> r@[a] < r@[b],
        forall|k: int| 0 <= k < r@.len() ==> (#[trigger] r@[k]) < ids@.len()
            && external_gathered(*options, views(ids@), r@[k] as int),
        forall|i: int| 0 <= i < ids@.len() && external_gathered(*options, views(ids@), i)
            ==> r@.contains(i as usize),
{
    let ghost all = views(ids@);
    let all_for_full = match &options.export_type {
        ExportType::Full => options.include_external_configs.len() == 0,
        _ => false,
    };
    let mut seen: Vec<String> = Vec::new();
    let mut out: Vec<usize> = Vec::new();
    let n = ids.len();
    let mut i: usize = 0;
    while i < n
        invariant
            n == ids@.len(),
            all == views(ids@),
            i <= n,
            all_for_full == (options.export_type is Full && options.include_external_configs@.len() == 0),
            forall|x: Seq<char>| #[trigger] views(seen@).contains(x)
                ==> external_wanted(*options, x) && all.subrange(0, i as int).contains(x),
            forall|k: int| 0 <= k < i && external_wanted(*options, all[k]) ==> views(seen@).contains(#[trigger] all[k]),
            forall|a: int, b: int| 0 <= a < b < out@.len() ==> out@[a] < out@[b],
            forall|k: int| 0 <= k < out@.len() ==> (#[trigger] out@[k]) < i && external_gathered(*options, all, out@[k] as int),
            forall|j: int| 0 <= j < i && external_gathered(*options, all, j) ==> out@.contains(j as usize),
        decreases n - i,
    {
        let id = ids[i].as_str();
        let ghost x = all[i as int];
        assert(x == id@);
        let ghost sub0 = all.subrange(0, i as int);
        let ghost sub1 = all.subrange(0, i + 1);
        proof {
            assert(sub1 =~= sub0.push(x));
            assert(sub1[i as int] == x);
            assert forall|y: Seq<char>| #[trigger] sub0.contains(y) implies sub1.contains(y) by {
                let k = choose|k: int| 0 <= k < sub0.len() && #[trigger] sub0[k] == y;
                assert(sub1[k] == y);
            }
        }
        let wanted = all_for_full || contains_str(&options.include_external_configs, id);
        assert(wanted == external_wanted(*options, x));
        let fresh = !contains_str(&seen, id);
        if wanted && fresh {
            proof {
                if sub0.contains(x) {
                    let k = choose|k: int| 0 <= k < sub0.len() && #[trigger] sub0[k] == x;
                    assert(all[k] == x);
                    assert(views(seen@).contains(all[k]));
                }
                assert(external_gathered(*options, all, i as int));
            }
            let ghost before = out@;
            out.push(i);
            let ghost sb = seen@;
            seen.push(text(id));
            proof {
                assert(views(seen@) =~= views(sb).push(x));
                assert forall|y: Seq<char>| #[trigger] views(seen@).contains(y)
                    implies external_wanted(*options, y) && sub1.contains(y) by {
                    if y != x {
                        let k = choose|k: int| 0 <= k < views(seen@).len() && #[trigger] views(seen@)[k] == y;
                        assert(views(sb)[k] == y);
                        assert(views(sb).contains(y));
                    }
                }
                assert forall|k: int| 0 <= k < i + 1 && external_wanted(*options, all[k])
                    implies views(seen@).contains(#[trigger] all[k]) by {
                    if k < i {
                        assert(views(sb).contains(all[k]));
                        let m = choose|m: int| 0 <= m < views(sb).len() && #[trigger] views(sb)[m] == all[k];
                        assert(views(seen@)[m] == all[k]);
                    } else {
                        assert(views(seen@)[views(sb).len() as int] == x);
                    }
                }
                assert forall|j: int| 0 <= j < i + 1 && external_gathered(*options, all, j) implies out@.contains(j as usize) by {
                    if j < i {
                        assert(before.contains(j as usize));
                        let k = choose|k: int| 0 <= k < before.len() && before[k] == j as usize;
                        assert(out@[k] == j as usize);
                    } else {
                        assert(out@[before.len() as int] == i);
                    }
                }
            }
        } else {
            proof {
                assert forall|k: int| 0 <= k < i + 1 && external_wanted(*options, all[k])
                    implies views(seen@).contains(#[trigger] all[k]) by {
                    if k == i {
                        assert(all[k] == x);
                    }
                }
                if external_gathered(*options, all, i as int) {
                    assert(wanted);
                    assert(views(seen@).contains(x));
                    let m = choose|m: int| 0 <= m < views(seen@).len() && #[trigger] views(seen@)[m] == x;
                    assert(sub0.contains(x));
                    assert(false);
                }
            }
        }
        i += 1;
    }
    out
}

/// The warning for a manifest version this library cannot restore.
pub open spec fn version_warning(version: nat) -> Seq<char> {
    "Backup manifest version "@ + decimal(version) + " is not supported (supported: "@ + decimal(
        MANIFEST_VERSION_MIN_SUPPORTED as nat,
    ) + "-"@ + decimal(MANIFEST_VERSION_MAX_SUPPORTED as nat) + ")"@
}

/// The warnings of a backup analysis: an unsupported manifest version, a
/// backup made by another app version, and a manifest whose encryption flag
/// disagrees with the data archive, in this order.
pub open spec fn manifest_warnings(
    version: nat,
    backup_app_version: Seq<char>,
    app_version: Seq<char>,
    claims_encrypted: bool,
    data_encrypted: bool,
) -> Seq<Seq<char>> {
    (if !(MANIFEST_VERSION_MIN_SUPPORTED <= version <= MANIFEST_VERSION_MAX_SUPPORTED) {
        seq![version_warning(version)]
    } else {
        Seq::empty()
    }) + (if backup_app_version != app_version {
        seq!["Backup was created with app version "@ + backup_app_version + ", current version is "@ + app_version]
    } else {
        Seq::empty()
    }) + (if claims_encrypted != data_encrypted {
        seq!["Manifest claims encrypted="@ + bool_chars(claims_encrypted) + ", but data.zip encrypted="@ + bool_chars(data_encrypted)]
    } else {
        Seq::empty()
    })
}

fn version_warning_text(version: u32) -> (r: String)
    ensures
        r@ == version_warning(version as nat),
{
    let mut r = text("Backup manifest version ");
    let v = decimal_text(version as u64);
    r.append(v.as_str());
    r.append(" is not supported (supported: ");
    let lo = decimal_text(MANIFEST_VERSION_MIN_SUPPORTED as u64);
    r.append(lo.as_str());
    r.append("-");
    let hi = decimal_text(MANIFEST_VERSION_MAX_SUPPORTED as u64);
    r.append(hi.as_str());
    r.append(")");
    r
}

/// Review a backup manifest: whether its version can be restored, and the
/// warnings about it.
pub fn review_manifest(
    version: u32,
    backup_app_version: &str,
    app_version: &str,
    claims_encrypted: bool,
    data_encrypted: bool,
) -> (r: (bool, Vec<String>))
    ensures
        r.0 == (MANIFEST_VERSION_MIN_SUPPORTED <= version <= MANIFEST_VERSION_MAX_SUPPORTED),
        views(r.1@) == manifest_warnings(version as nat, backup_app_version@, app_version@, claims_encrypted, data_encrypted),
{
    let mut warnings: Vec<String> = Vec::new();
    let valid = is_manifest_version_supported(version);
    let ghost w0 = if !valid { seq![version_warning(version as nat)] } else { Seq::<Seq<char>>::empty() };
    if !valid {
        warnings.push(version_warning_text(version));
    }
    assert(views(warnings@) =~= w0);
    let ghost w1 = if backup_app_version@ != app_version@ {
        seq!["Backup was created with app version "@ + backup_app_version@ + ", current version is "@ + app_version@]
    } else {
        Seq::<Seq<char>>::empty()
    };
    if !crate::text::str_eq(backup_app_version, app_version) {
        let mut m = join3("Backup was created with app version ", backup_app_version, ", current version is ");
        m.append(app_version);
        let ghost before = warnings@;
        warnings.push(m);
        assert(views(warnings@) =~= views(before).push(m@));
    }
    assert(views(warnings@) =~= w0 + w1);
    let ghost w2 = if claims_encrypted != data_encrypted {
        seq!["Manifest claims encrypted="@ + bool_chars(claims_encrypted) + ", but data.zip encrypted="@ + bool_chars(data_encrypted)]
    } else {
        Seq::<Seq<char>>::empty()
    };
    if claims_encrypted != data_encrypted {
        let a = bool_text(claims_encrypted);
        let b = bool_text(data_encrypted);
        let mut m = join3("Manifest claims encrypted=", a.as_str(), ", but data.zip encrypted=");
        m.append(b.as_str());
        let ghost before = warnings@;
        warnings.push(m);
        assert(views(warnings@) =~= views(before).push(m@));
    }
    assert(views(warnings@) =~= w0 + w1 + w2);
    (valid, warnings)
}

/// A sanitized name has the same length, holds no character that is
/// unsafe in file names, and is left as it is by a second sanitizing.
pub proof fn law_sanitized_names_are_safe(s: Seq<char>)
    ensures
        sanitized(s).len() == s.len(),
        forall|i: int| 0 <= i < s.len() ==> !is_unsafe_file_char(#[trigger] sanitized(s)[i]),
        sanitized(sanitized(s)) == sanitized(s),
{
    assert(sanitized(sanitized(s)) =~= sanitized(s));
}

/// No external config id is gathered twice into one backup.
pub proof fn law_gathered_external_ids_unique(options: BackupOptions, ids: Seq<Seq<char>>, i: int, j: int)
    requires
        0 <= i < j < ids.len(),
        external_gathered(options, ids, i),
        external_gathered(options, ids, j),
    ensures
        ids[i] != ids[j],
{
    assert(ids.subrange(0, j)[i] == ids[i]);
}

/// A full backup that names no external configs gathers the first
/// occurrence of every registered id.
pub proof fn law_full_backup_gathers_every_external(options: BackupOptions, ids: Seq<Seq<char>>, id: Seq<char>)
    requires
        options.export_type is Full,
        options.include_external_configs@.len() == 0,
        ids.contains(id),
    ensures
        exists|i: int| 0 <= i < ids.len() && ids[i] == id && #[trigger] external_gathered(options, ids, i),
{
    lemma_first_occurrence(ids, id);
    let k = choose|k: int| 0 <= k < ids.len() && ids[k] == id && !ids.subrange(0, k).contains(id);
    assert(external_gathered(options, ids, k));
}

/// An element of a sequence has a first occurrence.
proof fn lemma_first_occurrence(ids: Seq<Seq<char>>, id: Seq<char>)
    requires
        ids.contains(id),
    ensures
        exists|k: int| 0 <= k < ids.len() && ids[k] == id && !ids.subrange(0, k).contains(id),
    decreases ids.len(),
{
    if ids.last() == id && ids.drop_last().contains(id) {
        lemma_first_occurrence(ids.drop_last(), id);
        let k = choose|k: int| 0 <= k < ids.drop_last().len() && ids.drop_last()[k] == id && !ids.drop_last().subrange(0, k).contains(id);
        assert(ids.drop_last().subrange(0, k) =~= ids.subrange(0, k));
    } else if ids.last() == id {
        assert(ids.subrange(0, ids.len() - 1) =~= ids.drop_last());
    } else {
        let m = choose|m: int| 0 <= m < ids.len() && ids[m] == id;
        assert(ids.drop_last()[m] == id);
        lemma_first_occurrence(ids.drop_last(), id);
        let k = choose|k: int| 0 <= k < ids.drop_last().len() && ids.drop_last()[k] == id && !ids.drop_last().subrange(0, k).contains(id);
        assert(ids.drop_last().subrange(0, k) =~= ids.subrange(0, k));
    }
}

/// Backups written by this version of the library can be restored by it.
pub proof fn law_current_version_restorable()
    ensures
        MANIFEST_VERSION_MIN_SUPPORTED <= super::types::MANIFEST_VERSION_CURRENT <= MANIFEST_VERSION_MAX_SUPPORTED,
{
}

/// Whether `c` lists the main settings.
pub open spec fn is_settings_category(c: ExportCategory) -> bool {
    &&& c.id@ == "settings"@
    &&& c.name@ == "Application Settings"@
    &&& c.category_type == ExportCategoryType::Settings
    &&& !c.optional
    &&& opt_view(c.description) == Some("Main application settings"@)
}

/// Whether `c` lists the sub-settings type `t`.
pub open spec fn is_sub_settings_category(c: ExportCategory, t: Seq<char>) -> bool {
    &&& c.id@ == t
    &&& c.name@ == t
    &&& c.category_type == ExportCategoryType::SubSettings
    &&& !c.optional
    &&& c.description is None
}

/// Whether `c` lists the external config `e`.
pub open spec fn is_external_category(c: ExportCategory, e: ExternalConfig) -> bool {
    &&& c.id@ == e.id@
    &&& c.name@ == e.display_name@
    &&& c.category_type == ExportCategoryType::External
    &&& c.optional == e.optional
    &&& opt_view(c.description) == opt_view(e.description)
}

/// What a backup can hold, for a user to choose from: the main settings,
/// then each sub-settings type, then each external config, in order.
pub fn export_categories(sub_types: &Vec<String>, externals: &Vec<ExternalConfig>) -> (r: Vec<ExportCategory>)
    ensures
        r@.len() == 1 + sub_types@.len() + externals@.len(),
        is_settings_category(r@[0]),
        forall|i: int| 0 <= i < sub_types@.len() ==> is_sub_settings_category(#[trigger] r@[1 + i], sub_types@[i]@),
        forall|i: int| 0 <= i < externals@.len() ==> is_external_category(#[trigger] r@[1 + sub_types@.len() + i],
            externals@[i]),
{
    let mut out: Vec<ExportCategory> = Vec::new();
    out.push(ExportCategory {
        id: text("settings"),
        name: text("Application Settings"),
        category_type: ExportCategoryType::Settings,
        optional: false,
        description: Some(text("Main application settings")),
    });
    let n = sub_types.len();
    let mut i: usize = 0;
    while i < n
        invariant
            n == sub_types@.len(),
            i <= n,
            out@.len() == 1 + i,
            is_settings_category(out@[0]),
            forall|j: int| 0 <= j < i ==> is_sub_settings_category(#[trigger] out@[1 + j], sub_types@[j]@),
        decreases n - i,
    {
        let t = &sub_types[i];
        out.push(ExportCategory {
            id: text(t.as_str()),
            name: text(t.as_str()),
            category_type: ExportCategoryType::SubSettings,
            optional: false,
            description: None,
        });
        proof {
            assert forall|j: int| 0 <= j < i + 1 implies is_sub_settings_category(#[trigger] out@[1 + j], sub_types@[j]@) by {
                if j < i {
                    assert(out@[1 + j] == out@[1 + j]);
                }
            }
        }
        i += 1;
    }
    let m = externals.len();
    let mut k: usize = 0;
    while k < m
        invariant
            n == sub_types@.len(),
            m == externals@.len(),
            k <= m,
            out@.len() == 1 + n + k,
            is_settings_category(out@[0]),
            forall|j: int| 0 <= j < n ==> is_sub_settings_category(#[trigger] out@[1 + j], sub_types@[j]@),
            forall|j: int| 0 <= j < k ==> is_external_category(#[trigger] out@[1 + n + j], externals@[j]),
        decreases m - k,
    {
        let e = &externals[k];
        let description = match &e.description {
            Some(d) => Some(text(d.as_str())),
            None => None,
        };
        out.push(ExportCategory {
            id: text(e.id.as_str()),
            name: text(e.display_name.as_str()),
            category_type: ExportCategoryType::External,
            optional: e.optional,
            description,
        });
        k += 1;
    }
    out
}

/// The manifest entry of sub-settings that are not profiled: a single file
/// named after the type and the extension when it exists (none when it does
/// not), else the entries written, one file each.
pub open spec fn sub_settings_entry(
    sub_type: Seq<char>,
    single_file: bool,
    file_exists: bool,
    entries: Seq<Seq<char>>,
    ext: Seq<char>,
) -> Option<(bool, Seq<Seq<char>>)> {
    if single_file {
        if file_exists {
            Some((true, seq![sub_type + "."@ + ext]))
        } else {
            None
        }
    } else {
        Some((false, entries))
    }
}

/// The shape of a manifest entry of sub-settings that are not profiled:
/// whether it is a single file, and the names it lists.
pub open spec fn plain_entry_view(e: SubSettingsManifestEntry) -> Option<(bool, Seq<Seq<char>>)> {
    match e {
        SubSettingsManifestEntry::SingleFile(f) => Some((true, seq![f@])),
        SubSettingsManifestEntry::MultiFile(items) => Some((false, views(items@))),
        SubSettingsManifestEntry::Profiled { .. } => None,
    }
}

/// Plan the backup of sub-settings that are not profiled: `entries` are
/// the entries read and written (multi-file mode), `file_exists` whether
/// the single file exists (single-file mode).
pub fn plan_sub_settings_backup(
    sub_type: &str,
    single_file: bool,
    file_exists: bool,
    entries: &Vec<String>,
    ext: &str,
) -> (r: Option<SubSettingsManifestEntry>)
    ensures
        match sub_settings_entry(sub_type@, single_file, file_exists, views(entries@), ext@) {
            Some(v) => r matches Some(e) && plain_entry_view(e) == Some(v),
            None => r is None,
        },
{
    if single_file {
        if file_exists {
            let name = join3(sub_type, ".", ext);
            let r = SubSettingsManifestEntry::SingleFile(name);
            proof {
                assert(seq![name@] =~= seq![sub_type@ + "."@ + ext@]);
            }
            Some(r)
        } else {
            None
        }
    } else {
        Some(SubSettingsManifestEntry::MultiFile(copy_strings(entries)))
    }
}

/// The view of a profile's items in a backup.
pub open spec fn profile_entry_view(e: ProfileEntry) -> Seq<Seq<char>> {
    match e {
        ProfileEntry::Single(x) => seq![x@],
        ProfileEntry::Multiple(v) => views(v@),
    }
}

/// Whether a profile entry is in the form the backup writes: one item as
/// `Single`, several as `Multiple`.
pub open spec fn profile_entry_well_formed(e: ProfileEntry) -> bool {
    match e {
        ProfileEntry::Single(_) => true,
        ProfileEntry::Multiple(v) => v@.len() != 1,
    }
}

/// The profiles of profiled sub-settings that hold items, in order.
pub open spec fn profiles_with_items(items: Seq<(String, Vec<String>)>) -> Seq<(String, Vec<String>)> {
    items.filter(|p: (String, Vec<String>)| p.1@.len() > 0)
}

/// The manifest entry of profiled sub-settings, from the items found in
/// each profile: none when no profile holds an item; else each profile
/// that holds items, with one item as `Single` and several as `Multiple`.
pub fn plan_profiled_sub_settings(items: &Vec<(String, Vec<String>)>) -> (r: Option<SubSettingsManifestEntry>)
    ensures
        profiles_with_items(items@).len() == 0 ==> r is None,
        profiles_with_items(items@).len() > 0 ==> (r matches Some(SubSettingsManifestEntry::Profiled { profiles }) && {
            &&& profiles@.len() == profiles_with_items(items@).len()
            &&& forall|k: int| 0 <= k < profiles@.len() ==> {
                &&& (#[trigger] profiles@[k]).0@ == profiles_with_items(items@)[k].0@
                &&& profile_entry_view(profiles@[k].1) == views(profiles_with_items(items@)[k].1@)
                &&& profile_entry_well_formed(profiles@[k].1)
            }
        }),
{
    let mut out: Vec<(String, ProfileEntry)> = Vec::new();
    let n = items.len();
    let mut i: usize = 0;
    while i < n
        invariant
            n == items@.len(),
            i <= n,
            out@.len() == profiles_with_items(items@.subrange(0, i as int)).len(),
            forall|k: int| 0 <= k < out@.len() ==> {
                &&& (#[trigger] out@[k]).0@ == profiles_with_items(items@.subrange(0, i as int))[k].0@
                &&& profile_entry_view(out@[k].1) == views(profiles_with_items(items@.subrange(0, i as int))[k].1@)
                &&& profile_entry_well_formed(out@[k].1)
            },
        decreases n - i,
    {
        let ghost prev = profiles_with_items(items@.subrange(0, i as int));
        proof {
            assert(items@.subrange(0, i + 1).drop_last() =~= items@.subrange(0, i as int));
            reveal(Seq::filter);
        }
        let count = items[i].1.len();
        if count > 0 {
            let name = items[i].0.clone();
            let entry = if count == 1 {
                let one = items[i].1[0].clone();
                proof {
                    assert(seq![one@] =~= views(items@[i as int].1@));
                }
                ProfileEntry::Single(one)
            } else {
                let all = copy_strings(&items[i].1);
                ProfileEntry::Multiple(all)
            };
            let ghost out0 = out@;
            let ghost e_view = profile_entry_view(entry);
            let ghost e_ok = profile_entry_well_formed(entry);
            assert(e_view == views(items@[i as int].1@));
            assert(e_ok);
            assert(name@ == items@[i as int].0@);
            out.push((name, entry));
            proof {
                let now = profiles_with_items(items@.subrange(0, i + 1));
                assert(now == prev.push(items@[i as int]));
                assert forall|k: int| 0 <= k < out@.len() implies {
                    &&& (#[trigger] out@[k]).0@ == now[k].0@
                    &&& profile_entry_view(out@[k].1) == views(now[k].1@)
                    &&& profile_entry_well_formed(out@[k].1)
                } by {
                    if k < out0.len() {
                        assert(out@[k] == out0[k]);
                        assert(now[k] == prev[k]);
                    } else {
                        assert(now[k] == items@[i as int]);
                    }
                }
            }
        } else {
            proof {
                assert(profiles_with_items(items@.subrange(0, i + 1)) == prev);
            }
        }
        i += 1;
    }
    proof {
        assert(items@.subrange(0, n as int) =~= items@);
    }
    if out.len() == 0 {
        None
    } else {
        Some(SubSettingsManifestEntry::Profiled { profiles: out })
    }
}

/// Whether a profile directory is backed up: profiles are enabled, no
/// profile list was given or it names the profile, and it was not backed
/// up already.
pub open spec fn profile_backed_up(wanted: Seq<Seq<char>>, already: Seq<Seq<char>>, name: Seq<char>) -> bool {
    (wanted.len() == 0 || wanted.contains(name)) && !already.contains(name)
}

/// The profiles whose settings a backup writes: none unless profiles are
/// enabled; else the profile directories, in order, that the options
/// ask for and that were not backed up already.
pub fn plan_profile_backup(
    profiles_enabled: bool,
    profile_dirs: &Vec<String>,
    include_profiles: &Vec<String>,
    already: &Vec<String>,
) -> (r: Vec<String>)
    ensures
        views(r@) == if profiles_enabled {
            views(profile_dirs@).filter(|d: Seq<char>| profile_backed_up(views(include_profiles@), views(already@), d))
        } else {
            Seq::empty()
        },
{
    let mut out: Vec<String> = Vec::new();
    if !profiles_enabled {
        assert(views(out@) =~= Seq::<Seq<char>>::empty());
        return out;
    }
    let ghost pred = |d: Seq<char>| profile_backed_up(views(include_profiles@), views(already@), d);
    let n = profile_dirs.len();
    let mut i: usize = 0;
    while i < n
        invariant
            n == profile_dirs@.len(),
            i <= n,
            pred == (|d: Seq<char>| profile_backed_up(views(include_profiles@), views(already@), d)),
            views(out@) == views(profile_dirs@.subrange(0, i as int)).filter(pred),
        decreases n - i,
    {
        let d = &profile_dirs[i];
        let ghost before = views(out@);
        proof {
            assert(views(profile_dirs@.subrange(0, i + 1)) =~= views(profile_dirs@.subrange(0, i as int)).push(d@));
            assert(views(profile_dirs@.subrange(0, i + 1)).drop_last() =~= views(profile_dirs@.subrange(0, i as int)));
            reveal(Seq::filter);
        }
        let included = include_profiles.len() == 0 || contains_str(include_profiles, d.as_str());
        if included && !contains_str(already, d.as_str()) {
            out.push(d.clone());
            proof {
                assert(views(out@) =~= before.push(d@));
            }
        }
        i += 1;
    }
    proof {
        assert(profile_dirs@.subrange(0, n as int) =~= profile_dirs@);
    }
    out
}

/// What analysing a backup finds.
#[derive(Debug, Clone)]
pub struct ManifestReview {
    /// The manifest's version can be restored.
    pub is_valid: bool,
    /// Restoring needs a password: the data archive is encrypted (whatever
    /// the manifest claims).
    pub requires_password: bool,
    /// Warnings about the backup.
    pub warnings: Vec<String>,
}

/// Analyse a backup from its manifest and whether its data archive is
/// encrypted: validity and warnings as `review_manifest` gives them, and a
/// password required exactly when the data archive is encrypted.
pub fn analyze_manifest(
    version: u32,
    backup_app_version: &str,
    app_version: &str,
    claims_encrypted: bool,
    data_encrypted: bool,
) -> (r: ManifestReview)
    ensures
        r.is_valid == (MANIFEST_VERSION_MIN_SUPPORTED <= version <= MANIFEST_VERSION_MAX_SUPPORTED),
        r.requires_password == data_encrypted,
        views(r.warnings@) == manifest_warnings(version as nat, backup_app_version@, app_version@, claims_encrypted,
            data_encrypted),
{
    let (is_valid, warnings) = review_manifest(version, backup_app_version, app_version, claims_encrypted, data_encrypted);
    ManifestReview { is_valid, requires_password: data_encrypted, warnings }
}

} // verus!

verus! {

/// Outside a single-entry export, every sub-settings category the options
/// ask for is backed up, and a non-empty request is backed up as given; a
/// full backup with no request takes every registered category, and a
/// single-entry export backs up none whole.
pub proof fn law_requested_sub_settings_backed_up(options: BackupOptions, registered: Seq<Seq<char>>)
    ensures
        !(options.export_type is Single) ==> forall|k: Seq<char>| #[trigger] views(options.include_sub_settings@).contains(k)
            ==> sub_settings_chosen(options, registered).contains(k),
        !(options.export_type is Single) && options.include_sub_settings@.len() > 0 ==> sub_settings_chosen(options,
            registered) == views(options.include_sub_settings@),
        options.export_type is Full && options.include_sub_settings@.len() == 0 ==> sub_settings_chosen(options,
            registered) == registered,
        options.export_type is Single ==> sub_settings_chosen(options, registered).len() == 0,
{
}

} // verus!
