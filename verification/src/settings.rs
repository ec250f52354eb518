//! The stored settings and the rules of saving them: a value equal to its
//! default is not stored, an unchanged value causes no write, a category
//! left without values disappears, and reading gives the stored value or
//! else the default. Values are held as their JSON text.
use vstd::prelude::*;

use crate::string_map::StringMap;
use crate::text::{str_eq, text};

verus! {

/// The values stored under category `p`: the first entry for `p` wins.
pub open spec fn cat_lookup(c: Seq<(String, StringMap)>, p: Seq<char>) -> Option<Map<Seq<char>, Seq<char>>>
    decreases c.len(),
{
    if c.len() == 0 {
        None
    } else if c[0].0@ == p {
        Some(c[0].1.entries())
    } else {
        cat_lookup(c.drop_first(), p)
    }
}

/// The category an entry belongs to.
pub open spec fn cat_of(e: (String, StringMap)) -> Seq<char> {
    e.0@
}

proof fn lemma_cat_at(c: Seq<(String, StringMap)>, p: Seq<char>, j: int)
    requires
        0 <= j < c.len(),
        cat_of(c[j]) == p,
        forall|k: int| 0 <= k < j ==> cat_of(#[trigger] c[k]) != p,
    ensures
        cat_lookup(c, p) == Some(c[j].1.entries()),
    decreases j,
{
    if j > 0 {
        assert(cat_of(c[0]) != p);
        let d = c.drop_first();
        assert forall|k: int| 0 <= k < j - 1 implies cat_of(#[trigger] d[k]) != p by {
            assert(d[k] == c[k + 1]);
        }
        lemma_cat_at(d, p, j - 1);
    }
}

proof fn lemma_cat_absent(c: Seq<(String, StringMap)>, p: Seq<char>)
    requires
        forall|k: int| 0 <= k < c.len() ==> cat_of(#[trigger] c[k]) != p,
    ensures
        cat_lookup(c, p) is None,
    decreases c.len(),
{
    if c.len() > 0 {
        assert(cat_of(c[0]) != p);
        let d = c.drop_first();
        assert forall|k: int| 0 <= k < d.len() implies cat_of(#[trigger] d[k]) != p by {
            assert(d[k] == c[k + 1]);
        }
        lemma_cat_absent(d, p);
    }
}

proof fn lemma_cat_remove(c: Seq<(String, StringMap)>, j: int, q: Seq<char>)
    requires
        0 <= j < c.len(),
        cat_of(c[j]) != q,
    ensures
        cat_lookup(c.remove(j), q) == cat_lookup(c, q),
    decreases j,
{
    if j == 0 {
        assert(c.remove(0) =~= c.drop_first());
    } else {
        assert(c.remove(j)[0] == c[0]);
        assert(c.remove(j).drop_first() =~= c.drop_first().remove(j - 1));
        lemma_cat_remove(c.drop_first(), j - 1, q);
    }
}

proof fn lemma_cat_front(c: Seq<(String, StringMap)>, x: (String, StringMap), q: Seq<char>)
    ensures
        cat_lookup(c.insert(0, x), q) == if cat_of(x) == q {
            Some(x.1.entries())
        } else {
            cat_lookup(c, q)
        },
{
    assert(c.insert(0, x)[0] == x);
    assert(c.insert(0, x).drop_first() =~= c);
}

/// The value of a setting in a map of stored values: the stored one, or
/// else the default.
pub open spec fn value_in(
    values: Map<(Seq<char>, Seq<char>), Seq<char>>,
    category: Seq<char>,
    key: Seq<char>,
    default: Seq<char>,
) -> Seq<char> {
    if values.contains_key((category, key)) {
        values[(category, key)]
    } else {
        default
    }
}

/// What a save of `value` (with default `default`) under `category` and
/// `key` does to the stored values, given the outcome and the value it
/// reports as the previous one.
pub open spec fn saved(
    before: Map<(Seq<char>, Seq<char>), Seq<char>>,
    after: Map<(Seq<char>, Seq<char>), Seq<char>>,
    category: Seq<char>,
    key: Seq<char>,
    value: Seq<char>,
    default: Seq<char>,
    outcome: SaveOutcome,
    previous: Seq<char>,
) -> bool {
    &&& previous == value_in(before, category, key, default)
    &&& previous == value ==> outcome == SaveOutcome::Unchanged && after == before
    &&& previous != value && value == default ==> outcome == SaveOutcome::Reset
        && after == before.remove((category, key))
    &&& previous != value && value != default ==> outcome == SaveOutcome::Stored
        && after == before.insert((category, key), value)
}

/// Split a setting's full key `category.key`: exactly one `.` separates
/// the category from the key; any other form names no stored setting.
pub open spec fn key_parts(full_key: Seq<char>) -> Option<(Seq<char>, Seq<char>)> {
    if exists|i: int| 0 <= i < full_key.len() && full_key[i] == '.' && (forall|j: int|
        0 <= j < full_key.len() && full_key[j] == '.' ==> j == i) {
        let i = choose|i: int| 0 <= i < full_key.len() && full_key[i] == '.' && (forall|j: int|
            0 <= j < full_key.len() && full_key[j] == '.' ==> j == i);
        Some((full_key.subrange(0, i), full_key.subrange(i + 1, full_key.len() as int)))
    } else {
        None
    }
}

/// Split a setting's full key into its category and key.
pub fn split_setting_key(full_key: &str) -> (r: Option<(String, String)>)
    ensures
        match key_parts(full_key@) {
            Some((c, k)) => (r matches Some((rc, rk)) && rc@ == c && rk@ == k),
            None => r is None,
        },
{
    let n = full_key.unicode_len();
    let mut dot: Option<usize> = None;
    let mut i: usize = 0;
    while i < n
        invariant
            n == full_key@.len(),
            i <= n,
            match dot {
                Some(d) => d < i && full_key@[d as int] == '.' && forall|j: int| 0 <= j < i && full_key@[j] == '.' ==> j == d,
                None => forall|j: int| 0 <= j < i ==> full_key@[j] != '.',
            },
        decreases n - i,
    {
        if full_key.get_char(i) == '.' {
            match dot {
                Some(d) => {
                    proof {
                        let s = full_key@;
                        assert(s[d as int] == '.' && s[i as int] == '.');
                        assert(!(exists|x: int| 0 <= x < s.len() && s[x] == '.' && (forall|j: int|
                            0 <= j < s.len() && s[j] == '.' ==> j == x))) by {
                            if exists|x: int| 0 <= x < s.len() && s[x] == '.' && (forall|j: int|
                                0 <= j < s.len() && s[j] == '.' ==> j == x) {
                                let x = choose|x: int| 0 <= x < s.len() && s[x] == '.' && (forall|j: int|
                                    0 <= j < s.len() && s[j] == '.' ==> j == x);
                                assert(d as int == x);
                                assert(i as int == x);
                            }
                        }
                    }
                    return None;
                },
                None => {
                    dot = Some(i);
                },
            }
        }
        i += 1;
    }
    match dot {
        Some(d) => {
            let ghost s = full_key@;
            proof {
                assert(0 <= d < s.len() && s[d as int] == '.' && (forall|j: int| 0 <= j < s.len() && s[j] == '.' ==> j == d));
                let x = choose|x: int| 0 <= x < s.len() && s[x] == '.' && (forall|j: int|
                    0 <= j < s.len() && s[j] == '.' ==> j == x);
                assert(x == d as int);
            }
            let c = full_key.substring_char(0, d);
            let k = full_key.substring_char(d + 1, n);
            Some((text(c), text(k)))
        },
        None => {
            proof {
                let s = full_key@;
                if exists|x: int| 0 <= x < s.len() && s[x] == '.' && (forall|j: int| 0 <= j < s.len() && s[j] == '.' ==> j == x) {
                    let x = choose|x: int| 0 <= x < s.len() && s[x] == '.' && (forall|j: int|
                        0 <= j < s.len() && s[j] == '.' ==> j == x);
                    assert(s[x] != '.');
                }
            }
            None
        },
    }
}

/// Where the value of a setting comes from.
#[derive(Debug, Clone, Copy, PartialEq, Eq, Structural)]
pub enum ValueSource {
    /// An environment variable overrides it.
    Env,
    /// A secret read from the credential store.
    Credential,
    /// The stored value.
    Stored,
    /// The schema's default.
    Default,
}

/// The source of a setting's value: for a secret, an environment override
/// (only where secrets may be overridden), else the credential, else the
/// default; for any other setting, an environment override, else the
/// stored value, else the default.
pub open spec fn source_of(
    is_secret: bool,
    env_overrides_secrets: bool,
    has_env: bool,
    has_credential: bool,
    has_stored: bool,
) -> ValueSource {
    if is_secret {
        if env_overrides_secrets && has_env {
            ValueSource::Env
        } else if has_credential {
            ValueSource::Credential
        } else {
            ValueSource::Default
        }
    } else if has_env {
        ValueSource::Env
    } else if has_stored {
        ValueSource::Stored
    } else {
        ValueSource::Default
    }
}

/// Decide where the value of a setting comes from.
pub fn value_source(
    is_secret: bool,
    env_overrides_secrets: bool,
    has_env: bool,
    has_credential: bool,
    has_stored: bool,
) -> (r: ValueSource)
    ensures
        r == source_of(is_secret, env_overrides_secrets, has_env, has_credential, has_stored),
{
    if is_secret {
        if env_overrides_secrets && has_env {
            ValueSource::Env
        } else if has_credential {
            ValueSource::Credential
        } else {
            ValueSource::Default
        }
    } else if has_env {
        ValueSource::Env
    } else if has_stored {
        ValueSource::Stored
    } else {
        ValueSource::Default
    }
}

/// What saving a value did.
#[derive(Debug, Clone, Copy, PartialEq, Eq, Structural)]
pub enum SaveOutcome {
    /// The value was the current one: nothing to write, no event.
    Unchanged,
    /// The value is the default: it was removed from the store.
    Reset,
    /// The value was stored.
    Stored,
}

/// The stored settings: under each category, the values saved for its
/// keys, as JSON text.
#[derive(Debug)]
pub struct SettingsStore {
    categories: Vec<(String, StringMap)>,
}

impl SettingsStore {
    /// No category is listed twice, and none is empty.
    #[verifier::type_invariant]
    spec fn well_formed(&self) -> bool {
        &&& forall|i: int, j: int| 0 <= i < j < self.categories@.len()
            ==> cat_of(#[trigger] self.categories@[i]) != cat_of(#[trigger] self.categories@[j])
        &&& forall|i: int| 0 <= i < self.categories@.len()
            ==> #[trigger] self.categories@[i].1.entries() != Map::<Seq<char>, Seq<char>>::empty()
    }

    /// The values held, by category and key.
    pub closed spec fn values(&self) -> Map<(Seq<char>, Seq<char>), Seq<char>> {
        Map::new(
            |ck: (Seq<char>, Seq<char>)| cat_lookup(self.categories@, ck.0) is Some
                && cat_lookup(self.categories@, ck.0)->0.contains_key(ck.1),
            |ck: (Seq<char>, Seq<char>)| cat_lookup(self.categories@, ck.0)->0[ck.1],
        )
    }

    /// The categories that hold a value.
    pub closed spec fn category_names(&self) -> Set<Seq<char>> {
        Set::new(|c: Seq<char>| cat_lookup(self.categories@, c) is Some)
    }

    /// The value of a setting: the stored one, or else the default.
    pub open spec fn effective_value(&self, category: Seq<char>, key: Seq<char>, default: Seq<char>) -> Seq<char> {
        value_in(self.values(), category, key, default)
    }

    /// An empty store.
    pub fn new() -> (r: Self)
        ensures
            r.values() == Map::<(Seq<char>, Seq<char>), Seq<char>>::empty(),
            r.category_names() == Set::<Seq<char>>::empty(),
    {
        let r = SettingsStore { categories: Vec::new() };
        assert(r.values() =~= Map::<(Seq<char>, Seq<char>), Seq<char>>::empty());
        assert(r.category_names() =~= Set::<Seq<char>>::empty());
        r
    }

    fn position(&self, name: &str) -> (r: Option<usize>)
        ensures
            match r {
                Some(j) => j < self.categories@.len() && cat_of(self.categories@[j as int]) == name@
                    && forall|k: int| 0 <= k < j ==> cat_of(#[trigger] self.categories@[k]) != name@,
                None => forall|k: int| 0 <= k < self.categories@.len() ==> cat_of(#[trigger] self.categories@[k]) != name@,
            },
    {
        let n = self.categories.len();
        let mut i: usize = 0;
        while i < n
            invariant
                n == self.categories@.len(),
                i <= n,
                forall|k: int| 0 <= k < i ==> cat_of(#[trigger] self.categories@[k]) != name@,
            decreases n - i,
        {
            if str_eq(self.categories[i].0.as_str(), name) {
                return Some(i);
            }
            i += 1;
        }
        None
    }

    /// The stored value of a setting, if any.
    pub fn get(&self, category: &str, key: &str) -> (r: Option<String>)
        ensures
            match r {
                Some(v) => self.values().get((category@, key@)) == Some(v@),
                None => !self.values().contains_key((category@, key@)),
            },
    {
        match self.position(category) {
            Some(j) => {
                proof {
                    lemma_cat_at(self.categories@, category@, j as int);
                }
                self.categories[j].1.get(key)
            },
            None => {
                proof {
                    lemma_cat_absent(self.categories@, category@);
                }
                None
            },
        }
    }

    /// The value of a setting: the stored one, or else the given default.
    pub fn effective(&self, category: &str, key: &str, default: &str) -> (r: String)
        ensures
            r@ == self.effective_value(category@, key@, default@),
    {
        match self.get(category, key) {
            Some(v) => v,
            None => text(default),
        }
    }

    /// Take a category out of the store, with its values.
    fn take_category(&mut self, name: &str) -> (r: Option<StringMap>)
        ensures
            match r {
                Some(m) => cat_lookup(old(self).categories@, name@) == Some(m.entries())
                    && m.entries() != Map::<Seq<char>, Seq<char>>::empty(),
                None => cat_lookup(old(self).categories@, name@) is None,
            },
            cat_lookup(final(self).categories@, name@) is None,
            forall|q: Seq<char>| q != name@ ==> #[trigger] cat_lookup(final(self).categories@, q)
                == cat_lookup(old(self).categories@, q),
    {
        proof {
            use_type_invariant(&*self);
        }
        let ghost c0 = self.categories@;
        match self.position(name) {
            Some(j) => {
                proof {
                    lemma_cat_at(c0, name@, j as int);
                }
                let mut e: Vec<(String, StringMap)> = Vec::new();
                std::mem::swap(&mut e, &mut self.categories);
                let (_, m) = e.remove(j);
                proof {
                    assert forall|a: int, b: int| 0 <= a < b < e@.len() implies cat_of(#[trigger] e@[a])
                        != cat_of(#[trigger] e@[b]) by {
                        let a0 = if a < j { a } else { a + 1 };
                        let b0 = if b < j { b } else { b + 1 };
                        assert(e@[a] == c0[a0]);
                        assert(e@[b] == c0[b0]);
                    }
                    assert forall|a: int| 0 <= a < e@.len() implies #[trigger] e@[a].1.entries()
                        != Map::<Seq<char>, Seq<char>>::empty() by {
                        let a0 = if a < j { a } else { a + 1 };
                        assert(e@[a] == c0[a0]);
                    }
                    assert forall|k: int| 0 <= k < e@.len() implies cat_of(#[trigger] e@[k]) != name@ by {
                        let k0 = if k < j { k } else { k + 1 };
                        assert(e@[k] == c0[k0]);
                        assert(cat_of(c0[j as int]) != cat_of(c0[k0]));
                    }
                    lemma_cat_absent(e@, name@);
                    assert forall|q: Seq<char>| q != name@ implies #[trigger] cat_lookup(e@, q) == cat_lookup(c0, q) by {
                        lemma_cat_remove(c0, j as int, q);
                    }
                }
                self.categories = e;
                Some(m)
            },
            None => {
                proof {
                    lemma_cat_absent(c0, name@);
                }
                None
            },
        }
    }

    /// Put a category with its values into the store.
    fn put_category(&mut self, name: &str, map: StringMap)
        requires
            cat_lookup(old(self).categories@, name@) is None,
            map.entries() != Map::<Seq<char>, Seq<char>>::empty(),
        ensures
            cat_lookup(final(self).categories@, name@) == Some(map.entries()),
            forall|q: Seq<char>| q != name@ ==> #[trigger] cat_lookup(final(self).categories@, q)
                == cat_lookup(old(self).categories@, q),
    {
        proof {
            use_type_invariant(&*self);
        }
        let ghost c0 = self.categories@;
        let mut e: Vec<(String, StringMap)> = Vec::new();
        std::mem::swap(&mut e, &mut self.categories);
        let ghost m_entries = map.entries();
        let x = (text(name), map);
        let ghost gx = x;
        e.insert(0, x);
        proof {
            assert forall|k: int| 0 <= k < c0.len() implies cat_of(#[trigger] c0[k]) != name@ by {
                if cat_of(c0[k]) == name@ {
                    assert forall|m: int| 0 <= m < k implies cat_of(#[trigger] c0[m]) != name@ by {
                        assert(cat_of(c0[m]) != cat_of(c0[k]));
                    }
                    lemma_cat_at(c0, name@, k);
                }
            }
            assert forall|a: int, b: int| 0 <= a < b < e@.len() implies cat_of(#[trigger] e@[a])
                != cat_of(#[trigger] e@[b]) by {
                assert(e@[b] == c0[b - 1]);
                if a > 0 {
                    assert(e@[a] == c0[a - 1]);
                }
            }
            assert forall|a: int| 0 <= a < e@.len() implies #[trigger] e@[a].1.entries()
                != Map::<Seq<char>, Seq<char>>::empty() by {
                if a > 0 {
                    assert(e@[a] == c0[a - 1]);
                }
            }
            assert forall|q: Seq<char>| true implies #[trigger] cat_lookup(e@, q) == if cat_of(gx) == q {
                Some(gx.1.entries())
            } else {
                cat_lookup(c0, q)
            } by {
                lemma_cat_front(c0, gx, q);
            }
        }
        self.categories = e;
    }

    /// Store a value for a setting.
    pub fn set(&mut self, category: &str, key: &str, value: &str)
        ensures
            final(self).values() == old(self).values().insert((category@, key@), value@),
    {
        let ghost before = self.values();
        let ghost c0 = self.categories@;
        let mut m = match self.take_category(category) {
            Some(m) => m,
            None => StringMap::new(),
        };
        let ghost m0 = m.entries();
        m.insert(key, value);
        proof {
            assert(m.entries().contains_key(key@));
        }
        let ghost m1 = m.entries();
        self.put_category(category, m);
        proof {
            let after = self.values();
            let want = before.insert((category@, key@), value@);
            assert forall|ck: (Seq<char>, Seq<char>)| #[trigger] after.contains_key(ck) == want.contains_key(ck)
                && (after.contains_key(ck) ==> after[ck] == want[ck]) by {
                if ck.0 == category@ {
                    if cat_lookup(c0, category@) is Some {
                        assert(m0 == cat_lookup(c0, category@)->0);
                    } else {
                        assert(m0 == Map::<Seq<char>, Seq<char>>::empty());
                    }
                } else {
                    assert(cat_lookup(self.categories@, ck.0) == cat_lookup(c0, ck.0));
                }
            }
            assert(after =~= want);
        }
    }

    /// Remove the stored value of a setting; a category left empty goes too.
    pub fn remove(&mut self, category: &str, key: &str)
        ensures
            final(self).values() == old(self).values().remove((category@, key@)),
    {
        let ghost before = self.values();
        let ghost c0 = self.categories@;
        match self.take_category(category) {
            Some(mut m) => {
                let ghost m0 = m.entries();
                m.remove(key);
                let ghost m1 = m.entries();
                let empty = m.is_empty();
                if !empty {
                    self.put_category(category, m);
                }
                proof {
                    let after = self.values();
                    let want = before.remove((category@, key@));
                    assert forall|ck: (Seq<char>, Seq<char>)| #[trigger] after.contains_key(ck) == want.contains_key(ck)
                        && (after.contains_key(ck) ==> after[ck] == want[ck]) by {
                        if ck.0 == category@ {
                            assert(m0 == cat_lookup(c0, category@)->0);
                            if empty {
                                assert(!m1.contains_key(ck.1));
                            }
                        } else {
                            assert(cat_lookup(self.categories@, ck.0) == cat_lookup(c0, ck.0));
                        }
                    }
                    assert(after =~= want);
                }
            },
            None => {
                proof {
                    assert(self.values() =~= before.remove((category@, key@)));
                }
            },
        }
    }

    /// Every stored value with its category and key, each pair once.
    pub fn pairs(&self) -> (r: Vec<(String, String, String)>)
        ensures
            forall|i: int| 0 <= i < r@.len() ==> self.values().get(((#[trigger] r@[i]).0@, r@[i].1@)) == Some(r@[i].2@),
            forall|i: int, j: int| 0 <= i < j < r@.len() ==> ((#[trigger] r@[i]).0@, r@[i].1@) != ((#[trigger] r@[j]).0@, r@[j].1@),
            forall|ck: (Seq<char>, Seq<char>)| #[trigger] self.values().contains_key(ck)
                ==> exists|i: int| 0 <= i < r@.len() && (#[trigger] r@[i]).0@ == ck.0 && r@[i].1@ == ck.1,
    {
        proof {
            use_type_invariant(self);
        }
        let ghost c = self.categories@;
        let mut out: Vec<(String, String, String)> = Vec::new();
        let ghost mut owner: Seq<int> = Seq::empty();
        let n = self.categories.len();
        let mut i: usize = 0;
        while i < n
            invariant
                n == c.len(),
                c == self.categories@,
                i <= n,
                forall|a: int, b: int| 0 <= a < b < c.len() ==> cat_of(#[trigger] c[a]) != cat_of(#[trigger] c[b]),
                owner.len() == out@.len(),
                forall|k: int| 0 <= k < out@.len() ==> 0 <= #[trigger] owner[k] < i
                    && out@[k].0@ == cat_of(c[owner[k]])
                    && c[owner[k]].1.entries().get(out@[k].1@) == Some(out@[k].2@),
                forall|a: int, b: int| 0 <= a < b < out@.len() ==> ((#[trigger] out@[a]).0@, out@[a].1@) != ((#[trigger] out@[b]).0@, out@[b].1@),
                forall|j: int, key: Seq<char>| 0 <= j < i && #[trigger] c[j].1.entries().contains_key(key)
                    ==> exists|k: int| 0 <= k < out@.len() && (#[trigger] out@[k]).0@ == cat_of(c[j]) && out@[k].1@ == key,
            decreases n - i,
        {
            let name = &self.categories[i].0;
            let map = &self.categories[i].1;
            let keys = map.keys();
            let m = keys.len();
            let mut t: usize = 0;
            let ghost start = out@;
            let ghost owner0 = owner;
            while t < m
                invariant
                    n == c.len(),
                    c == self.categories@,
                    i < n,
                    m == keys@.len(),
                    t <= m,
                    *name == c[i as int].0,
                    *map == c[i as int].1,
                    crate::text::views(keys@).to_set() == map.entries().dom(),
                    crate::text::views(keys@).no_duplicates(),
                    forall|a: int, b: int| 0 <= a < b < c.len() ==> cat_of(#[trigger] c[a]) != cat_of(#[trigger] c[b]),
                    out@.len() == start.len() + t,
                    owner.len() == out@.len(),
                    owner0.len() == start.len(),
                    forall|k: int| 0 <= k < start.len() ==> out@[k] == #[trigger] start[k] && owner[k] == owner0[k],
                    forall|k: int| 0 <= k < out@.len() ==> 0 <= #[trigger] owner[k] <= i
                        && out@[k].0@ == cat_of(c[owner[k]])
                        && c[owner[k]].1.entries().get(out@[k].1@) == Some(out@[k].2@),
                    forall|k: int| 0 <= k < start.len() ==> #[trigger] owner[k] < i,
                    forall|k: int| start.len() <= k < out@.len() ==> #[trigger] owner[k] == i
                        && out@[k].1@ == keys@[k - start.len()]@,
                    forall|a: int, b: int| 0 <= a < b < out@.len() ==> ((#[trigger] out@[a]).0@, out@[a].1@) != ((#[trigger] out@[b]).0@, out@[b].1@),
                    forall|j: int, key: Seq<char>| 0 <= j < i && #[trigger] c[j].1.entries().contains_key(key)
                        ==> exists|k: int| 0 <= k < start.len() && (#[trigger] start[k]).0@ == cat_of(c[j]) && start[k].1@ == key,
                decreases m - t,
            {
                let k = &keys[t];
                proof {
                    assert(crate::text::views(keys@)[t as int] == k@);
                    assert(crate::text::views(keys@).to_set().contains(k@));
                }
                let ghost prev = out@;
                match map.get(k.as_str()) {
                    Some(v) => {
                        out.push((name.clone(), k.clone(), v));
                        proof {
                            owner = owner.push(i as int);
                            let last = prev.len() as int;
                            assert(out@[last].0@ == cat_of(c[i as int]));
                            assert forall|a: int, b: int| 0 <= a < b < out@.len() implies ((#[trigger] out@[a]).0@, out@[a].1@)
                                != ((#[trigger] out@[b]).0@, out@[b].1@) by {
                                if b == last {
                                    assert(out@[a] == prev[a]);
                                    if a < start.len() {
                                        assert(owner[a] < i);
                                        assert(cat_of(c[owner[a]]) != cat_of(c[i as int]));
                                    } else {
                                        assert(crate::text::views(keys@)[a - start.len()] != crate::text::views(keys@)[t as int]);
                                    }
                                } else {
                                    assert(out@[a] == prev[a]);
                                    assert(out@[b] == prev[b]);
                                }
                            }
                        }
                    },
                    None => {
                        assert(false);
                    },
                }
                t += 1;
            }
            proof {
                assert forall|j: int, key: Seq<char>| 0 <= j < i + 1 && #[trigger] c[j].1.entries().contains_key(key)
                    implies exists|k: int| 0 <= k < out@.len() && (#[trigger] out@[k]).0@ == cat_of(c[j]) && out@[k].1@ == key by {
                    if j < i {
                        let k = choose|k: int| 0 <= k < start.len() && (#[trigger] start[k]).0@ == cat_of(c[j]) && start[k].1@ == key;
                        assert(out@[k] == start[k]);
                    } else {
                        assert(crate::text::views(keys@).to_set().contains(key));
                        let q = choose|q: int| 0 <= q < crate::text::views(keys@).len() && crate::text::views(keys@)[q] == key;
                        let k = start.len() + q;
                        assert(owner[k] == i);
                        assert(out@[k].1@ == keys@[q]@);
                    }
                }
            }
            i += 1;
        }
        proof {
            assert forall|k: int| 0 <= k < out@.len() implies self.values().get(((#[trigger] out@[k]).0@, out@[k].1@)) == Some(out@[k].2@) by {
                let j = owner[k];
                assert forall|m: int| 0 <= m < j implies cat_of(#[trigger] c[m]) != cat_of(c[j]) by {}
                lemma_cat_at(c, cat_of(c[j]), j);
            }
            assert forall|ck: (Seq<char>, Seq<char>)| #[trigger] self.values().contains_key(ck)
                implies exists|k: int| 0 <= k < out@.len() && (#[trigger] out@[k]).0@ == ck.0 && out@[k].1@ == ck.1 by {
                if forall|m: int| 0 <= m < c.len() ==> cat_of(#[trigger] c[m]) != ck.0 {
                    lemma_cat_absent(c, ck.0);
                } else {
                    let j = choose|m: int| 0 <= m < c.len() && cat_of(#[trigger] c[m]) == ck.0;
                    assert forall|m: int| 0 <= m < j implies cat_of(#[trigger] c[m]) != ck.0 by {
                        assert(cat_of(c[m]) != cat_of(c[j]));
                    }
                    lemma_cat_at(c, ck.0, j);
                    assert(c[j].1.entries().contains_key(ck.1));
                }
            }
        }
        out
    }

    /// The settings of a schema (category, key, default) that a reset
    /// changes: their positions in the schema, in order, with the values
    /// they have now.
    pub fn changed_by_reset(&self, schema: &Vec<(String, String, String)>) -> (r: Vec<(usize, String)>)
        ensures
            forall|a: int, b: int| 0 <= a < b < r@.len() ==> r@[a].0 < r@[b].0,
            forall|k: int| 0 <= k < r@.len() ==> (#[trigger] r@[k]).0 < schema@.len() && r@[k].1@
                == self.effective_value(schema@[r@[k].0 as int].0@, schema@[r@[k].0 as int].1@, schema@[r@[k].0 as int].2@)
                && r@[k].1@ != schema@[r@[k].0 as int].2@,
            forall|i: int| 0 <= i < schema@.len() && #[trigger] self.effective_value(schema@[i].0@, schema@[i].1@, schema@[i].2@)
                != schema@[i].2@ ==> exists|k: int| 0 <= k < r@.len() && (#[trigger] r@[k]).0 == i,
    {
        let mut out: Vec<(usize, String)> = Vec::new();
        let n = schema.len();
        let mut i: usize = 0;
        while i < n
            invariant
                n == schema@.len(),
                i <= n,
                forall|a: int, b: int| 0 <= a < b < out@.len() ==> out@[a].0 < out@[b].0,
                forall|k: int| 0 <= k < out@.len() ==> (#[trigger] out@[k]).0 < i && out@[k].1@
                    == self.effective_value(schema@[out@[k].0 as int].0@, schema@[out@[k].0 as int].1@, schema@[out@[k].0 as int].2@)
                    && out@[k].1@ != schema@[out@[k].0 as int].2@,
                forall|j: int| 0 <= j < i && #[trigger] self.effective_value(schema@[j].0@, schema@[j].1@, schema@[j].2@)
                    != schema@[j].2@ ==> exists|k: int| 0 <= k < out@.len() && (#[trigger] out@[k]).0 == j,
            decreases n - i,
        {
            let entry = &schema[i];
            let current = self.effective(entry.0.as_str(), entry.1.as_str(), entry.2.as_str());
            if !str_eq(current.as_str(), entry.2.as_str()) {
                let ghost before = out@;
                out.push((i, current));
                proof {
                    assert forall|j: int| 0 <= j < i + 1 && #[trigger] self.effective_value(schema@[j].0@, schema@[j].1@, schema@[j].2@)
                        != schema@[j].2@ implies exists|k: int| 0 <= k < out@.len() && (#[trigger] out@[k]).0 == j by {
                        if j < i {
                            let k = choose|k: int| 0 <= k < before.len() && (#[trigger] before[k]).0 == j;
                            assert(out@[k] == before[k]);
                        } else {
                            assert(out@[before.len() as int].0 == i);
                        }
                    }
                }
            }
            i += 1;
        }
        out
    }

    /// Forget every stored value.
    pub fn clear(&mut self)
        ensures
            final(self).values() == Map::<(Seq<char>, Seq<char>), Seq<char>>::empty(),
    {
        self.categories = Vec::new();
        assert(self.values() =~= Map::<(Seq<char>, Seq<char>), Seq<char>>::empty());
    }

    /// Save a setting: nothing happens when the value is the current one;
    /// a value equal to the default is removed from the store (keeping the
    /// file minimal); any other value is stored. Returns what was done and
    /// the value the setting had before.
    pub fn save(&mut self, category: &str, key: &str, value: &str, default: &str) -> (r: (SaveOutcome, String))
        ensures
            saved(old(self).values(), final(self).values(), category@, key@, value@, default@, r.0, r.1@),
    {
        let old_value = self.effective(category, key, default);
        if str_eq(old_value.as_str(), value) {
            return (SaveOutcome::Unchanged, old_value);
        }
        if str_eq(value, default) {
            self.remove(category, key);
            (SaveOutcome::Reset, old_value)
        } else {
            self.set(category, key, value);
            (SaveOutcome::Stored, old_value)
        }
    }
}

/// Reading a setting right after saving it gives the saved value.
pub proof fn law_read_after_save(
    before: Map<(Seq<char>, Seq<char>), Seq<char>>,
    after: Map<(Seq<char>, Seq<char>), Seq<char>>,
    category: Seq<char>,
    key: Seq<char>,
    value: Seq<char>,
    default: Seq<char>,
    outcome: SaveOutcome,
    previous: Seq<char>,
)
    requires
        saved(before, after, category, key, value, default, outcome, previous),
    ensures
        value_in(after, category, key, default) == value,
{
}

/// Saving a setting leaves every other setting as it was.
pub proof fn law_save_keeps_other_settings(
    before: Map<(Seq<char>, Seq<char>), Seq<char>>,
    after: Map<(Seq<char>, Seq<char>), Seq<char>>,
    category: Seq<char>,
    key: Seq<char>,
    value: Seq<char>,
    default: Seq<char>,
    outcome: SaveOutcome,
    previous: Seq<char>,
    other_category: Seq<char>,
    other_key: Seq<char>,
    other_default: Seq<char>,
)
    requires
        saved(before, after, category, key, value, default, outcome, previous),
        (other_category, other_key) != (category, key),
    ensures
        value_in(after, other_category, other_key, other_default)
            == value_in(before, other_category, other_key, other_default),
{
}

/// A value equal to its default is never kept in the store, and saving
/// the same value again changes nothing.
pub proof fn law_defaults_not_stored(
    before: Map<(Seq<char>, Seq<char>), Seq<char>>,
    after: Map<(Seq<char>, Seq<char>), Seq<char>>,
    category: Seq<char>,
    key: Seq<char>,
    default: Seq<char>,
    outcome: SaveOutcome,
    previous: Seq<char>,
)
    requires
        saved(before, after, category, key, default, default, outcome, previous),
        !before.contains_key((category, key)) || before[(category, key)] != default,
    ensures
        !after.contains_key((category, key)),
{
}

/// Saving the value a setting already has is reported as unchanged and
/// writes nothing.
pub proof fn law_unchanged_save_writes_nothing(
    before: Map<(Seq<char>, Seq<char>), Seq<char>>,
    after: Map<(Seq<char>, Seq<char>), Seq<char>>,
    category: Seq<char>,
    key: Seq<char>,
    default: Seq<char>,
    outcome: SaveOutcome,
    previous: Seq<char>,
)
    requires
        saved(before, after, category, key, value_in(before, category, key, default), default, outcome, previous),
    ensures
        outcome == SaveOutcome::Unchanged,
        after == before,
{
}

} // verus!

verus! {

/// For a setting that is not secret, an environment override wins whatever
/// is stored; without one, a stored value wins over the default. For a
/// secret, an override wins exactly when overrides may apply to secrets;
/// without one, the credential wins over the default, and the settings
/// file never supplies a secret.
pub proof fn law_value_source_priority(
    env_overrides_secrets: bool,
    has_env: bool,
    has_credential: bool,
    has_stored: bool,
)
    ensures
        source_of(false, env_overrides_secrets, true, has_credential, has_stored) == ValueSource::Env,
        source_of(false, env_overrides_secrets, false, has_credential, true) == ValueSource::Stored,
        source_of(false, env_overrides_secrets, false, has_credential, false) == ValueSource::Default,
        (source_of(true, env_overrides_secrets, has_env, has_credential, has_stored) == ValueSource::Env) <==> (
        env_overrides_secrets && has_env),
        source_of(true, env_overrides_secrets, has_env, has_credential, has_stored) != ValueSource::Stored,
        !(env_overrides_secrets && has_env) ==> source_of(true, env_overrides_secrets, has_env, has_credential,
            has_stored) == if has_credential {
            ValueSource::Credential
        } else {
            ValueSource::Default
        },
{
}

} // verus!
