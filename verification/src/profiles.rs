//! Profiles: named configurations, the manifest that lists them, and the
//! rules by which profiles are created, switched, renamed, duplicated and
//! deleted.
use vstd::prelude::*;

use crate::error::Error;
use crate::text::{join2, str_eq, text};

verus! {

/// Default profile name used when migrating or initializing.
pub const DEFAULT_PROFILE: &'static str = "default";

/// Directory name containing profile subdirectories.
pub const PROFILES_DIR: &'static str = "profiles";

/// Whether a character is a Unicode control character (general category Cc).
pub open spec fn is_control_char(c: char) -> bool {
    (c as u32) <= 0x1f || (0x7f <= (c as u32) && (c as u32) <= 0x9f)
}

/// Whether `s` holds two dots in a row.
pub open spec fn has_double_dot(s: Seq<char>) -> bool {
    exists|i: int| 0 <= i && i + 1 < s.len() && #[trigger] s[i] == '.' && s[i + 1] == '.'
}

/// Whether `s` holds a path separator or a path traversal.
pub open spec fn has_path_part(s: Seq<char>) -> bool {
    s.contains('/') || s.contains('\\') || has_double_dot(s)
}

/// Whether `s` holds a control character.
pub open spec fn has_control(s: Seq<char>) -> bool {
    exists|i: int| 0 <= i < s.len() && is_control_char(#[trigger] s[i])
}

/// The reason a profile name is refused, or `None` when it is accepted.
/// The checks are made in this order: empty, leading dot, path separators,
/// control characters.
pub open spec fn profile_name_problem(s: Seq<char>) -> Option<Seq<char>> {
    if s.len() == 0 {
        Some(": Profile name cannot be empty"@)
    } else if s[0] == '.' {
        Some(": Profile name cannot start with a dot"@)
    } else if has_path_part(s) {
        Some(": Profile name cannot contain path separators"@)
    } else if has_control(s) {
        Some(": Profile name cannot contain control characters"@)
    } else {
        None
    }
}

/// Whether `s` is an acceptable profile name.
pub open spec fn valid_profile_name(s: Seq<char>) -> bool {
    profile_name_problem(s) is None
}

fn is_control(c: char) -> (r: bool)
    ensures
        r == is_control_char(c),
{
    let n = c as u32;
    n <= 0x1f || (0x7f <= n && n <= 0x9f)
}

/// Validate a profile name.
///
/// Valid names can contain spaces and most printable characters.
/// Names cannot be empty, start with a dot, contain path separators or `..`,
/// or contain control characters. The error message is the name followed by
/// the reason.
pub fn validate_profile_name(name: &str) -> (r: Result<(), Error>)
    ensures
        r is Ok <==> valid_profile_name(name@),
        r matches Err(e) ==> e is InvalidProfileName && e->InvalidProfileName_0@ == name@
            + profile_name_problem(name@).unwrap(),
{
    let n = name.unicode_len();
    if n == 0 {
        return Err(Error::InvalidProfileName(join2(name, ": Profile name cannot be empty")));
    }
    if name.get_char(0) == '.' {
        return Err(Error::InvalidProfileName(join2(name, ": Profile name cannot start with a dot")));
    }
    let mut i: usize = 0;
    let mut path_part = false;
    while i < n
        invariant
            n == name@.len(),
            i <= n,
            path_part == (name@.subrange(0, i as int).contains('/') || name@.subrange(0, i as int).contains('\\')
                || exists|k: int| 0 <= k < i && k + 1 < n && #[trigger] name@[k] == '.' && name@[k + 1] == '.'),
        decreases n - i,
    {
        let c = name.get_char(i);
        if c == '/' || c == '\\' {
            path_part = true;
        }
        if c == '.' && i + 1 < n && name.get_char(i + 1) == '.' {
            path_part = true;
        }
        proof {
            let s = name@.subrange(0, i as int);
            let t = name@.subrange(0, i + 1);
            assert(t =~= s.push(c));
            if s.contains('/') {
                let k = choose|k: int| 0 <= k < s.len() && s[k] == '/';
                assert(t[k] == '/');
            }
            if s.contains('\\') {
                let k = choose|k: int| 0 <= k < s.len() && s[k] == '\\';
                assert(t[k] == '\\');
            }
            if c == '/' {
                assert(t[i as int] == '/');
            }
            if c == '\\' {
                assert(t[i as int] == '\\');
            }
        }
        i += 1;
    }
    proof {
        assert(name@.subrange(0, n as int) =~= name@);
    }
    if path_part {
        return Err(Error::InvalidProfileName(join2(name, ": Profile name cannot contain path separators")));
    }
    let mut j: usize = 0;
    while j < n
        invariant
            n == name@.len(),
            j <= n,
            n > 0,
            name@[0] != '.',
            !has_path_part(name@),
            forall|k: int| 0 <= k < j ==> !is_control_char(#[trigger] name@[k]),
        decreases n - j,
    {
        if is_control(name.get_char(j)) {
            assert(is_control_char(name@[j as int]));
            return Err(Error::InvalidProfileName(join2(name, ": Profile name cannot contain control characters")));
        }
        j += 1;
    }
    Ok(())
}

} // verus!

verus! {

/// Whether no two elements of `s` are equal.
pub open spec fn no_duplicates(s: Seq<Seq<char>>) -> bool {
    forall|i: int, j: int| 0 <= i < j < s.len() ==> #[trigger] s[i] != #[trigger] s[j]
}

/// The first position of `x` in `s`, when `x` occurs in `s`.
pub open spec fn is_first_index(s: Seq<Seq<char>>, x: Seq<char>, i: int) -> bool {
    &&& 0 <= i < s.len()
    &&& s[i] == x
    &&& forall|j: int| 0 <= j < i ==> s[j] != x
}

/// Profile manifest stored in `.profiles.json`.
///
/// Tracks which profiles exist and which is currently active.
#[derive(Debug, Clone)]
pub struct ProfileManifest {
    /// Currently active profile name.
    pub active: String,
    /// List of all profile names.
    pub profiles: Vec<String>,
}

/// Events emitted when profiles change.
#[derive(Debug, Clone, PartialEq, Eq)]
pub enum ProfileEvent {
    /// Profile was switched.
    Switched { from: String, to: String },
    /// New profile was created.
    Created { name: String },
    /// Profile was deleted.
    Deleted { name: String },
    /// Profile was renamed.
    Renamed { from: String, to: String },
    /// Profile was duplicated.
    Duplicated { source: String, target: String },
}

impl ProfileManifest {
    /// The profile names as sequences of characters.
    pub open spec fn names(&self) -> Seq<Seq<char>> {
        self.profiles@.map_values(|s: String| s@)
    }

    /// A manifest the profile manager keeps: no name twice, and the active
    /// profile among the listed ones (so the list is never empty).
    pub open spec fn wf(&self) -> bool {
        &&& no_duplicates(self.names())
        &&& self.names().contains(self.active@)
    }

    /// Create a new manifest with a single default profile, which is active.
    pub fn new() -> (r: Self)
        ensures
            r.active@ == DEFAULT_PROFILE@,
            r.names() == seq![DEFAULT_PROFILE@],
            r.wf(),
    {
        let mut profiles: Vec<String> = Vec::new();
        profiles.push(text(DEFAULT_PROFILE));
        let r = ProfileManifest { active: text(DEFAULT_PROFILE), profiles };
        assert(r.names() =~= seq![DEFAULT_PROFILE@]);
        assert(r.names()[0] == r.active@);
        r
    }

    fn find(&self, name: &str) -> (r: Option<usize>)
        ensures
            match r {
                Some(i) => is_first_index(self.names(), name@, i as int),
                None => !self.names().contains(name@),
            },
    {
        let n = self.profiles.len();
        let mut i: usize = 0;
        while i < n
            invariant
                n == self.profiles@.len(),
                i <= n,
                forall|j: int| 0 <= j < i ==> self.names()[j] != name@,
            decreases n - i,
        {
            if str_eq(self.profiles[i].as_str(), name) {
                return Some(i);
            }
            i += 1;
        }
        None
    }

    /// Check if a profile exists.
    pub fn has_profile(&self, name: &str) -> (r: bool)
        ensures
            r == self.names().contains(name@),
    {
        self.find(name).is_some()
    }

    /// Add a profile to the manifest; a name already listed is not added again.
    pub fn add_profile(&mut self, name: String)
        ensures
            final(self).active == old(self).active,
            old(self).names().contains(name@) ==> final(self).names() == old(self).names(),
            !old(self).names().contains(name@) ==> final(self).names() == old(self).names().push(name@),
            no_duplicates(old(self).names()) ==> no_duplicates(final(self).names()),
            final(self).names().contains(name@),
    {
        if !self.has_profile(name.as_str()) {
            let ghost n = name@;
            self.profiles.push(name);
            assert(self.names() =~= old(self).names().push(n));
            assert(self.names()[self.names().len() - 1] == n);
        }
    }

    /// Remove a profile from the manifest. Returns whether it was listed.
    /// The first occurrence of the name is removed; the active profile is
    /// left as it is.
    pub fn remove_profile(&mut self, name: &str) -> (r: bool)
        ensures
            r == old(self).names().contains(name@),
            final(self).active == old(self).active,
            !r ==> final(self).names() == old(self).names(),
            r ==> exists|i: int| is_first_index(old(self).names(), name@, i)
                && final(self).names() == old(self).names().remove(i),
            no_duplicates(old(self).names()) ==> no_duplicates(final(self).names())
                && !final(self).names().contains(name@),
    {
        match self.find(name) {
            Some(pos) => {
                let ghost old_names = self.names();
                self.profiles.remove(pos);
                assert(self.names() =~= old_names.remove(pos as int));
                proof {
                    if no_duplicates(old_names) {
                        assert forall|k: int| 0 <= k < self.names().len() implies self.names()[k] != name@ by {
                            if k < pos {
                                assert(old_names[k] != name@);
                            } else {
                                assert(self.names()[k] == old_names[k + 1]);
                                assert(old_names[pos as int] != old_names[k + 1]);
                            }
                        }
                        assert forall|a: int, b: int| 0 <= a < b < self.names().len() implies
                            #[trigger] self.names()[a] != #[trigger] self.names()[b] by {
                            let a2 = if a < pos { a } else { a + 1 };
                            let b2 = if b < pos { b } else { b + 1 };
                            assert(old_names[a2] != old_names[b2]);
                        }
                    }
                }
                true
            },
            None => false,
        }
    }

    /// Rename a profile in the manifest. Returns whether it was listed. The
    /// first occurrence is renamed, and the active profile follows a rename.
    pub fn rename_profile(&mut self, from: &str, to: String) -> (r: bool)
        ensures
            r == old(self).names().contains(from@),
            !r ==> *final(self) == *old(self),
            r ==> exists|i: int| is_first_index(old(self).names(), from@, i)
                && final(self).names() == old(self).names().update(i, to@),
            r && old(self).active@ == from@ ==> final(self).active@ == to@,
            r && old(self).active@ != from@ ==> final(self).active == old(self).active,
    {
        match self.find(from) {
            Some(pos) => {
                let ghost old_names = self.names();
                let ghost t = to@;
                let to2 = to.clone();
                self.profiles.set(pos, to2);
                assert(self.names() =~= old_names.update(pos as int, t));
                if str_eq(self.active.as_str(), from) {
                    self.active = to;
                }
                true
            },
            None => false,
        }
    }

    /// Set the active profile, when it is listed. Returns whether it was.
    pub fn set_active(&mut self, name: &str) -> (r: bool)
        ensures
            r == old(self).names().contains(name@),
            final(self).names() == old(self).names(),
            r ==> final(self).active@ == name@,
            !r ==> final(self).active == old(self).active,
    {
        if self.has_profile(name) {
            self.active = text(name);
            true
        } else {
            false
        }
    }
}

impl Default for ProfileManifest {
    fn default() -> (r: Self)
        ensures
            r.active@ == DEFAULT_PROFILE@,
            r.names() == seq![DEFAULT_PROFILE@],
    {
        ProfileManifest::new()
    }
}

} // verus!

verus! {

impl ProfileManifest {
    /// Creating a profile: the name is validated, must not be listed yet, and
    /// is appended to the list. The caller creates the profile directory,
    /// saves the manifest and emits the returned event.
    pub fn apply_create(&mut self, name: &str) -> (r: Result<ProfileEvent, Error>)
        ensures
            !valid_profile_name(name@) ==> (r matches Err(e) && e is InvalidProfileName
                && e->InvalidProfileName_0@ == name@ + profile_name_problem(name@).unwrap()
                && *final(self) == *old(self)),
            valid_profile_name(name@) && old(self).names().contains(name@) ==> (r matches Err(e)
                && e is ProfileAlreadyExists && e->ProfileAlreadyExists_0@ == name@
                && *final(self) == *old(self)),
            valid_profile_name(name@) && !old(self).names().contains(name@) ==> (r matches Ok(ev)
                && ev is Created && ev->Created_name@ == name@
                && final(self).names() == old(self).names().push(name@)
                && final(self).active == old(self).active),
            old(self).wf() ==> final(self).wf(),
    {
        match validate_profile_name(name) {
            Err(e) => return Err(e),
            Ok(()) => {},
        }
        if self.has_profile(name) {
            return Err(Error::ProfileAlreadyExists(text(name)));
        }
        let ghost old_names = self.names();
        self.add_profile(text(name));
        proof {
            if old(self).wf() {
                assert(old_names.contains(self.active@));
                let k = choose|k: int| 0 <= k < old_names.len() && old_names[k] == self.active@;
                assert(self.names()[k] == self.active@);
            }
        }
        Ok(ProfileEvent::Created { name: text(name) })
    }

    /// Switching profile: the name must be listed. Switching to the active
    /// profile changes nothing and emits no event (`Ok(None)`); otherwise the
    /// active profile changes and a `Switched` event is returned, after which
    /// the caller saves the manifest and invalidates its caches.
    pub fn apply_switch(&mut self, name: &str) -> (r: Result<Option<ProfileEvent>, Error>)
        ensures
            !old(self).names().contains(name@) ==> (r matches Err(e) && e is ProfileNotFound
                && e->ProfileNotFound_0@ == name@ && *final(self) == *old(self)),
            old(self).names().contains(name@) && old(self).active@ == name@ ==> (r matches Ok(None)
                && *final(self) == *old(self)),
            old(self).names().contains(name@) && old(self).active@ != name@ ==> (r matches Ok(Some(ev))
                && ev is Switched && ev->Switched_from@ == old(self).active@ && ev->Switched_to@ == name@
                && final(self).active@ == name@ && final(self).names() == old(self).names()),
            old(self).wf() ==> final(self).wf(),
    {
        if !self.has_profile(name) {
            return Err(Error::ProfileNotFound(text(name)));
        }
        if str_eq(self.active.as_str(), name) {
            return Ok(None);
        }
        let from = self.active.clone();
        self.set_active(name);
        Ok(Some(ProfileEvent::Switched { from, to: text(name) }))
    }

    /// Deleting a profile: the name must be listed, must not be the active
    /// profile, and must not be the last one. The caller removes the profile
    /// directory, saves the manifest and emits the returned event.
    pub fn apply_delete(&mut self, name: &str) -> (r: Result<ProfileEvent, Error>)
        ensures
            !old(self).names().contains(name@) ==> (r matches Err(e) && e is ProfileNotFound
                && e->ProfileNotFound_0@ == name@ && *final(self) == *old(self)),
            old(self).names().contains(name@) && old(self).active@ == name@ ==> (r matches Err(e)
                && e is CannotDeleteActiveProfile && e->CannotDeleteActiveProfile_0@ == name@
                && *final(self) == *old(self)),
            old(self).names().contains(name@) && old(self).active@ != name@
                && old(self).names().len() <= 1 ==> (r matches Err(e) && e is CannotDeleteLastProfile
                && *final(self) == *old(self)),
            old(self).names().contains(name@) && old(self).active@ != name@
                && old(self).names().len() > 1 ==> (r matches Ok(ev) && ev is Deleted
                && ev->Deleted_name@ == name@
                && (exists|i: int| is_first_index(old(self).names(), name@, i)
                    && final(self).names() == old(self).names().remove(i))
                && final(self).active == old(self).active),
            old(self).wf() ==> final(self).wf(),
    {
        if !self.has_profile(name) {
            return Err(Error::ProfileNotFound(text(name)));
        }
        if str_eq(self.active.as_str(), name) {
            return Err(Error::CannotDeleteActiveProfile(text(name)));
        }
        if self.profiles.len() <= 1 {
            return Err(Error::CannotDeleteLastProfile);
        }
        let ghost old_names = self.names();
        let ghost act = self.active@;
        self.remove_profile(name);
        proof {
            if old(self).wf() {
                let i = choose|i: int| is_first_index(old_names, name@, i)
                    && self.names() == old_names.remove(i);
                let k = choose|k: int| 0 <= k < old_names.len() && old_names[k] == act;
                assert(k != i);
                if k < i {
                    assert(self.names()[k] == act);
                } else {
                    assert(self.names()[k - 1] == act);
                }
            }
        }
        Ok(ProfileEvent::Deleted { name: text(name) })
    }

    /// Renaming a profile: the new name is validated, the old name must be
    /// listed and the new one must not be. The active profile follows the
    /// rename. The caller renames the directory and saves the manifest.
    pub fn apply_rename(&mut self, from: &str, to: &str) -> (r: Result<ProfileEvent, Error>)
        ensures
            !valid_profile_name(to@) ==> (r matches Err(e) && e is InvalidProfileName
                && e->InvalidProfileName_0@ == to@ + profile_name_problem(to@).unwrap()
                && *final(self) == *old(self)),
            valid_profile_name(to@) && !old(self).names().contains(from@) ==> (r matches Err(e)
                && e is ProfileNotFound && e->ProfileNotFound_0@ == from@ && *final(self) == *old(self)),
            valid_profile_name(to@) && old(self).names().contains(from@) && old(self).names().contains(to@)
                ==> (r matches Err(e) && e is ProfileAlreadyExists && e->ProfileAlreadyExists_0@ == to@
                && *final(self) == *old(self)),
            valid_profile_name(to@) && old(self).names().contains(from@) && !old(self).names().contains(to@)
                ==> (r matches Ok(ev) && ev is Renamed && ev->Renamed_from@ == from@ && ev->Renamed_to@ == to@
                && (exists|i: int| is_first_index(old(self).names(), from@, i)
                    && final(self).names() == old(self).names().update(i, to@))
                && (old(self).active@ == from@ ==> final(self).active@ == to@)
                && (old(self).active@ != from@ ==> final(self).active == old(self).active)),
            old(self).wf() ==> final(self).wf(),
    {
        match validate_profile_name(to) {
            Err(e) => return Err(e),
            Ok(()) => {},
        }
        if !self.has_profile(from) {
            return Err(Error::ProfileNotFound(text(from)));
        }
        if self.has_profile(to) {
            return Err(Error::ProfileAlreadyExists(text(to)));
        }
        let ghost old_names = self.names();
        let ghost act = self.active@;
        self.rename_profile(from, text(to));
        proof {
            if old(self).wf() {
                let i = choose|i: int| is_first_index(old_names, from@, i)
                    && self.names() == old_names.update(i, to@);
                let k = choose|k: int| 0 <= k < old_names.len() && old_names[k] == act;
                if k == i {
                    assert(self.names()[i] == self.active@);
                } else {
                    assert(self.names()[k] == self.active@);
                }
                assert forall|a: int, b: int| 0 <= a < b < self.names().len() implies
                    #[trigger] self.names()[a] != #[trigger] self.names()[b] by {
                    if a == i {
                        assert(old_names[b] != to@);
                    } else if b == i {
                        assert(old_names[a] != to@);
                    } else {
                        assert(old_names[a] != old_names[b]);
                    }
                }
            }
        }
        Ok(ProfileEvent::Renamed { from: text(from), to: text(to) })
    }

    /// Duplicating a profile: the target name is validated, the source must
    /// be listed and the target must not be. The target is appended to the
    /// list; the caller copies the directory and saves the manifest.
    pub fn apply_duplicate(&mut self, source: &str, target: &str) -> (r: Result<ProfileEvent, Error>)
        ensures
            !valid_profile_name(target@) ==> (r matches Err(e) && e is InvalidProfileName
                && e->InvalidProfileName_0@ == target@ + profile_name_problem(target@).unwrap()
                && *final(self) == *old(self)),
            valid_profile_name(target@) && !old(self).names().contains(source@) ==> (r matches Err(e)
                && e is ProfileNotFound && e->ProfileNotFound_0@ == source@ && *final(self) == *old(self)),
            valid_profile_name(target@) && old(self).names().contains(source@)
                && old(self).names().contains(target@) ==> (r matches Err(e) && e is ProfileAlreadyExists
                && e->ProfileAlreadyExists_0@ == target@ && *final(self) == *old(self)),
            valid_profile_name(target@) && old(self).names().contains(source@)
                && !old(self).names().contains(target@) ==> (r matches Ok(ev) && ev is Duplicated
                && ev->Duplicated_source@ == source@ && ev->Duplicated_target@ == target@
                && final(self).names() == old(self).names().push(target@)
                && final(self).active == old(self).active),
            old(self).wf() ==> final(self).wf(),
    {
        match validate_profile_name(target) {
            Err(e) => return Err(e),
            Ok(()) => {},
        }
        if !self.has_profile(source) {
            return Err(Error::ProfileNotFound(text(source)));
        }
        if self.has_profile(target) {
            return Err(Error::ProfileAlreadyExists(text(target)));
        }
        let ghost old_names = self.names();
        self.add_profile(text(target));
        proof {
            if old(self).wf() {
                let k = choose|k: int| 0 <= k < old_names.len() && old_names[k] == self.active@;
                assert(self.names()[k] == self.active@);
            }
        }
        Ok(ProfileEvent::Duplicated { source: text(source), target: text(target) })
    }
}

/// In a manifest the profile manager keeps, refusing to delete the last
/// profile never happens: the only remaining profile is the active one, and
/// deleting the active profile is refused first.
pub proof fn lemma_last_profile_is_active(m: ProfileManifest, name: Seq<char>)
    requires
        m.wf(),
        m.names().contains(name),
        m.names().len() <= 1,
    ensures
        m.active@ == name,
{
    let k = choose|k: int| 0 <= k < m.names().len() && m.names()[k] == name;
    let a = choose|a: int| 0 <= a < m.names().len() && m.names()[a] == m.active@;
    assert(k == 0 && a == 0);
}

/// Deleting a profile just created gives back the profiles there were: the
/// delete is allowed (the new profile is listed, not active, and not the
/// only one), and it leaves the list and the active profile as they were
/// before the create.
pub proof fn law_delete_undoes_create(
    m0: ProfileManifest,
    m1: ProfileManifest,
    m2: ProfileManifest,
    name: Seq<char>,
    i: int,
)
    requires
        m0.wf(),
        !m0.names().contains(name),
        m1.names() == m0.names().push(name),
        m1.active == m0.active,
        is_first_index(m1.names(), name, i),
        m2.names() == m1.names().remove(i),
        m2.active == m1.active,
    ensures
        m1.names().contains(name),
        m1.active@ != name,
        m1.names().len() > 1,
        m2.names() == m0.names(),
        m2.active == m0.active,
{
    assert(m1.names()[m0.names().len() as int] == name);
    if i < m0.names().len() {
        assert(m0.names()[i] == name);
    }
    assert(i == m0.names().len());
    assert(m2.names() =~= m0.names());
}

} // verus!

verus! {

/// Migration strategy used when profiles are enabled on a flat layout.
///
/// A custom strategy carries no code here: the caller that chose it runs its
/// own migration when the plan says so.
#[derive(Debug, Clone, Copy, PartialEq, Eq)]
pub enum ProfileMigrator {
    /// Auto-migrate the flat structure to `profiles/default/`.
    Auto,
    /// Custom migration logic, run by the caller.
    Custom,
    /// No migration (a flat structure is left as it is, with a warning).
    NoMigration,
}

impl Default for ProfileMigrator {
    fn default() -> (r: Self)
        ensures
            r == ProfileMigrator::Auto,
    {
        ProfileMigrator::Auto
    }
}

/// What migrating a target to the profile layout comes to.
#[derive(Debug, Clone, Copy, PartialEq, Eq)]
pub enum MigrationStep {
    /// A manifest exists and nothing is left over: profiles are in place.
    AlreadyProfiled,
    /// There is nothing to migrate.
    NothingToMigrate,
    /// A flat layout was found but migration is disabled (warn only).
    Disabled,
    /// Run the caller's custom migration on the root directory.
    RunCustom,
    /// Move the flat files into `profiles/default/` and write a fresh manifest.
    RunAuto,
}

/// Whether a migration is still owed: no manifest, or (in single-file mode) a
/// legacy file left next to an existing manifest, and something to move.
pub open spec fn spec_needs_migration(
    manifest_exists: bool,
    single_file_mode: bool,
    legacy_file_exists: bool,
    root_has_entries: bool,
) -> bool {
    &&& (!manifest_exists || (single_file_mode && legacy_file_exists))
    &&& if single_file_mode { legacy_file_exists } else { root_has_entries }
}

/// Decide how to migrate a target to the profile layout.
///
/// * `manifest_exists` - the `.profiles.{ext}` manifest is present
/// * `single_file_mode` - the target is one file (`root.{ext}`) rather than a directory
/// * `legacy_file_exists` - in single-file mode, the flat `root.{ext}` file is present
/// * `root_has_entries` - in multi-file mode, the root directory exists and is not empty
pub fn plan_migration(
    manifest_exists: bool,
    single_file_mode: bool,
    legacy_file_exists: bool,
    root_has_entries: bool,
    strategy: ProfileMigrator,
) -> (r: MigrationStep)
    ensures
        manifest_exists && !(single_file_mode && legacy_file_exists) ==> r == MigrationStep::AlreadyProfiled,
        !(manifest_exists && !(single_file_mode && legacy_file_exists)) && !spec_needs_migration(
            manifest_exists, single_file_mode, legacy_file_exists, root_has_entries) ==> r == MigrationStep::NothingToMigrate,
        spec_needs_migration(manifest_exists, single_file_mode, legacy_file_exists, root_has_entries) ==> r == match strategy {
            ProfileMigrator::Auto => MigrationStep::RunAuto,
            ProfileMigrator::Custom => MigrationStep::RunCustom,
            ProfileMigrator::NoMigration => MigrationStep::Disabled,
        },
{
    if manifest_exists && !(single_file_mode && legacy_file_exists) {
        return MigrationStep::AlreadyProfiled;
    }
    let needs = if single_file_mode { legacy_file_exists } else { root_has_entries };
    if !needs {
        return MigrationStep::NothingToMigrate;
    }
    match strategy {
        ProfileMigrator::NoMigration => MigrationStep::Disabled,
        ProfileMigrator::Custom => MigrationStep::RunCustom,
        ProfileMigrator::Auto => MigrationStep::RunAuto,
    }
}

/// The name of the profile manifest file for a storage extension: `.profiles.{ext}`.
pub fn manifest_file_name(ext: &str) -> (r: String)
    ensures
        r@ == ".profiles."@ + ext@,
{
    join2(".profiles.", ext)
}

/// Whether an entry of a flat root directory moves into the default profile
/// during automatic migration: everything but the manifest and the profiles
/// directory itself.
pub fn migration_moves_entry(entry_name: &str, ext: &str) -> (r: bool)
    ensures
        r == (entry_name@ != ".profiles."@ + ext@ && entry_name@ != PROFILES_DIR@),
{
    let manifest = manifest_file_name(ext);
    !str_eq(entry_name, manifest.as_str()) && !str_eq(entry_name, PROFILES_DIR)
}

} // verus!

verus! {

/// A name is a valid profile name when it is not empty, does not start
/// with a dot, holds no `/`, `\` or `..`, and every character is printable:
/// at least U+0020 and outside U+007F..=U+009F (the control characters of
/// general category Cc). Letters of any script, digits, spaces and
/// punctuation are all accepted, `é` as much as `e`.
pub proof fn law_printable_names_are_valid(s: Seq<char>)
    requires
        s.len() > 0,
        s[0] != '.',
        !s.contains('/'),
        !s.contains('\\'),
        forall|i: int| 0 <= i && i + 1 < s.len() ==> !(#[trigger] s[i] == '.' && s[i + 1] == '.'),
        forall|i: int| 0 <= i < s.len() ==> 0x20 <= (#[trigger] s[i] as u32) && !(0x7f <= (s[i] as u32) && (s[i] as u32) <= 0x9f),
    ensures
        valid_profile_name(s),
{
}

/// A name holding a control character (below U+0020, or in
/// U+007F..=U+009F) is never a valid profile name.
pub proof fn law_control_characters_refused(s: Seq<char>, i: int)
    requires
        0 <= i < s.len(),
        (s[i] as u32) < 0x20 || (0x7f <= (s[i] as u32) && (s[i] as u32) <= 0x9f),
    ensures
        !valid_profile_name(s),
{
    assert(is_control_char(s[i]));
}

} // verus!
