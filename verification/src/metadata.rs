//! Setting metadata: a setting's type, default, constraints and free-form
//! metadata. Values are held as JSON text, as `serde_json` writes it. The
//! number constraints (bounds and step) are floating point and kept beside
//! this type by the caller.
use vstd::prelude::*;

use crate::config::{SettingType, TextConstraints};
use crate::credentials::opt_view;
use crate::json::{decode_string, encode_string, encode_string_list, json_string_content, json_string_list, json_string_text};
use crate::meta::SECRET;
use crate::secrets::SchemaSetting;
use crate::string_map::StringMap;
use crate::text::{bool_chars, bool_text, lemma_text_lt_order, str_eq, text, text_less, text_lt, views};

verus! {

/// An option of a select setting.
#[derive(Debug)]
pub struct SettingOption {
    /// The value stored when the option is chosen, as JSON text.
    pub value: String,
    /// Display label.
    pub label: String,
    /// Optional description.
    pub description: Option<String>,
}

impl SettingOption {
    /// An option whose value is the string `value`.
    pub fn new(value: &str, label: &str) -> (r: Self)
        ensures
            r.value@ == json_string_text(value@),
            r.label@ == label@,
            r.description is None,
    {
        let v = match encode_string(value) {
            Ok(t) => t,
            Err(e) => e,
        };
        SettingOption { value: v, label: text(label), description: None }
    }

    /// An option whose value is the string `value`, with a description.
    pub fn with_description(value: &str, label: &str, description: &str) -> (r: Self)
        ensures
            r.value@ == json_string_text(value@),
            r.label@ == label@,
            opt_view(r.description) == Some(description@),
    {
        let v = match encode_string(value) {
            Ok(t) => t,
            Err(e) => e,
        };
        SettingOption { value: v, label: text(label), description: Some(text(description)) }
    }
}

/// Shorthand for `SettingOption::new`.
pub fn opt(value: &str, label: &str) -> (r: SettingOption)
    ensures
        r.value@ == json_string_text(value@),
        r.label@ == label@,
        r.description is None,
{
    SettingOption::new(value, label)
}

/// The values (JSON text) of a list of options.
pub open spec fn option_values(options: Seq<SettingOption>) -> Seq<Seq<char>> {
    options.map_values(|o: SettingOption| o.value@)
}

/// Constraints by setting type: the options of a select and the pattern of
/// a text.
#[derive(Debug)]
pub struct SettingConstraints {
    /// Options for a select (required there).
    pub options: Option<Vec<SettingOption>>,
    /// Text constraints.
    pub text: TextConstraints,
}

impl Default for SettingConstraints {
    fn default() -> (r: Self)
        ensures
            r.options is None,
            r.text.pattern is None,
    {
        SettingConstraints { options: None, text: TextConstraints { pattern: None } }
    }
}

/// The boolean a JSON text stands for, if it is one.
pub open spec fn json_bool(t: Seq<char>) -> Option<bool> {
    if t == bool_chars(true) {
        Some(true)
    } else if t == bool_chars(false) {
        Some(false)
    } else {
        None
    }
}

/// Metadata of one setting.
#[derive(Debug)]
pub struct SettingMetadata {
    /// Type of the setting (for rendering).
    pub setting_type: SettingType,
    /// Default value, as JSON text.
    pub default: String,
    /// Current value (filled in at run time), as JSON text.
    pub value: Option<String>,
    /// Type-specific constraints.
    pub constraints: SettingConstraints,
    /// Free-form metadata of the application: key to JSON text.
    pub metadata: StringMap,
}

impl Default for SettingMetadata {
    fn default() -> (r: Self)
        ensures
            r.setting_type == SettingType::Text,
            r.default@ == "null"@,
            r.value is None,
            r.constraints.options is None,
            r.constraints.text.pattern is None,
            r.metadata.entries() == Map::<Seq<char>, Seq<char>>::empty(),
    {
        SettingMetadata {
            setting_type: SettingType::Text,
            default: text("null"),
            value: None,
            constraints: SettingConstraints::default(),
            metadata: StringMap::new(),
        }
    }
}

impl SettingMetadata {
    /// The string metadata under `key`: the content of a JSON string.
    pub open spec fn meta_str_of(&self, key: Seq<char>) -> Option<Seq<char>> {
        match self.metadata.entries().get(key) {
            Some(t) => json_string_content(t),
            None => None,
        }
    }

    /// The boolean metadata under `key`.
    pub open spec fn meta_bool_of(&self, key: Seq<char>) -> Option<bool> {
        match self.metadata.entries().get(key) {
            Some(t) => json_bool(t),
            None => None,
        }
    }

    /// Whether the setting is marked secret.
    pub open spec fn secret_marked(&self) -> bool {
        self.meta_bool_of(SECRET@) == Some(true)
    }

    fn of_type(setting_type: SettingType, default: String) -> (r: Self)
        ensures
            r.setting_type == setting_type,
            r.default == default,
            r.value is None,
            r.constraints.options is None,
            r.constraints.text.pattern is None,
            r.metadata.entries() == Map::<Seq<char>, Seq<char>>::empty(),
    {
        SettingMetadata {
            setting_type,
            default,
            value: None,
            constraints: SettingConstraints::default(),
            metadata: StringMap::new(),
        }
    }

    /// A text setting with the string `default`.
    pub fn text(default: &str) -> (r: Self)
        ensures
            r.setting_type == SettingType::Text,
            r.default@ == json_string_text(default@),
            r.value is None,
            r.constraints.options is None,
            r.constraints.text.pattern is None,
            r.metadata.entries() == Map::<Seq<char>, Seq<char>>::empty(),
    {
        let d = match encode_string(default) {
            Ok(t) => t,
            Err(e) => e,
        };
        SettingMetadata::of_type(SettingType::Text, d)
    }

    /// A toggle with the boolean `default`.
    pub fn toggle(default: bool) -> (r: Self)
        ensures
            r.setting_type == SettingType::Toggle,
            r.default@ == bool_chars(default),
            r.value is None,
            r.constraints.options is None,
            r.constraints.text.pattern is None,
            r.metadata.entries() == Map::<Seq<char>, Seq<char>>::empty(),
    {
        SettingMetadata::of_type(SettingType::Toggle, bool_text(default))
    }

    /// A select with the string `default` and its options.
    pub fn select(default: &str, options: Vec<SettingOption>) -> (r: Self)
        ensures
            r.setting_type == SettingType::Select,
            r.default@ == json_string_text(default@),
            r.value is None,
            r.constraints.options == Some(options),
            r.constraints.text.pattern is None,
            r.metadata.entries() == Map::<Seq<char>, Seq<char>>::empty(),
    {
        let d = match encode_string(default) {
            Ok(t) => t,
            Err(e) => e,
        };
        let mut m = SettingMetadata::of_type(SettingType::Select, d);
        m.constraints.options = Some(options);
        m
    }

    /// A read-only setting with any JSON value as its default.
    pub fn info(default: &str) -> (r: Self)
        ensures
            r.setting_type == SettingType::Info,
            r.default@ == default@,
            r.value is None,
            r.constraints.options is None,
            r.constraints.text.pattern is None,
            r.metadata.entries() == Map::<Seq<char>, Seq<char>>::empty(),
    {
        SettingMetadata::of_type(SettingType::Info, text(default))
    }

    /// A list of strings with `default` as its default.
    pub fn list(default: &Vec<String>) -> (r: Self)
        ensures
            r.setting_type == SettingType::List,
            r.default@ == json_string_list(views(default@)),
            r.value is None,
            r.constraints.options is None,
            r.constraints.text.pattern is None,
            r.metadata.entries() == Map::<Seq<char>, Seq<char>>::empty(),
    {
        let d = match encode_string_list(default) {
            Ok(t) => t,
            Err(e) => e,
        };
        SettingMetadata::of_type(SettingType::List, d)
    }

    /// Add string metadata.
    pub fn meta_str(self, key: &str, value: &str) -> (r: Self)
        ensures
            r.metadata.entries() == self.metadata.entries().insert(key@, json_string_text(value@)),
            r.setting_type == self.setting_type,
            r.default == self.default,
            r.value == self.value,
            r.constraints == self.constraints,
    {
        let v = match encode_string(value) {
            Ok(t) => t,
            Err(e) => e,
        };
        self.meta(key, v.as_str())
    }

    /// Add boolean metadata.
    pub fn meta_bool(self, key: &str, value: bool) -> (r: Self)
        ensures
            r.metadata.entries() == self.metadata.entries().insert(key@, bool_chars(value)),
            r.setting_type == self.setting_type,
            r.default == self.default,
            r.value == self.value,
            r.constraints == self.constraints,
    {
        let v = bool_text(value);
        self.meta(key, v.as_str())
    }

    /// Add metadata of any JSON value (given as JSON text).
    pub fn meta(self, key: &str, value: &str) -> (r: Self)
        ensures
            r.metadata.entries() == self.metadata.entries().insert(key@, value@),
            r.setting_type == self.setting_type,
            r.default == self.default,
            r.value == self.value,
            r.constraints == self.constraints,
    {
        let mut m = self;
        m.metadata.insert(key, value);
        m
    }

    /// The metadata under `key`, as JSON text.
    pub fn get_meta(&self, key: &str) -> (r: Option<String>)
        ensures
            opt_view(r) == self.metadata.entries().get(key@),
    {
        self.metadata.get(key)
    }

    /// The metadata under `key`, where it is a string.
    pub fn get_meta_str(&self, key: &str) -> (r: Option<String>)
        ensures
            opt_view(r) == self.meta_str_of(key@),
    {
        match self.metadata.get(key) {
            Some(t) => decode_string(t.as_str()),
            None => None,
        }
    }

    /// The metadata under `key`, where it is a boolean.
    pub fn get_meta_bool(&self, key: &str) -> (r: Option<bool>)
        ensures
            r == self.meta_bool_of(key@),
    {
        match self.metadata.get(key) {
            Some(t) => {
                if str_eq(t.as_str(), "true") {
                    Some(true)
                } else if str_eq(t.as_str(), "false") {
                    Some(false)
                } else {
                    None
                }
            },
            None => None,
        }
    }

    /// Set the pattern a text value must match.
    pub fn pattern(self, pattern: &str) -> (r: Self)
        ensures
            opt_view(r.constraints.text.pattern) == Some(pattern@),
            r.constraints.options == self.constraints.options,
            r.setting_type == self.setting_type,
            r.default == self.default,
            r.value == self.value,
            r.metadata == self.metadata,
    {
        let mut m = self;
        m.constraints.text.pattern = Some(text(pattern));
        m
    }

    /// Mark the setting secret (stored in the credential store).
    pub fn secret(self) -> (r: Self)
        ensures
            r.metadata.entries() == self.metadata.entries().insert(SECRET@, bool_chars(true)),
            r.secret_marked(),
            r.setting_type == self.setting_type,
            r.default == self.default,
            r.value == self.value,
            r.constraints == self.constraints,
    {
        self.meta_bool(SECRET, true)
    }

    /// Whether the setting is marked secret.
    pub fn is_secret(&self) -> (r: bool)
        ensures
            r == self.secret_marked(),
    {
        match self.get_meta_bool(SECRET) {
            Some(b) => b,
            None => false,
        }
    }

    /// The setting as the settings operations see it, under its full key.
    pub fn schema_setting(&self, full_key: &str) -> (r: SchemaSetting)
        ensures
            r.full_key@ == full_key@,
            r.secret == self.secret_marked(),
            r.default@ == self.default@,
            r.setting_type == self.setting_type,
            opt_view(r.pattern) == opt_view(self.constraints.text.pattern),
            match self.constraints.options {
                Some(o) => r.options matches Some(v) && views(v@) == option_values(o@),
                None => r.options is None,
            },
    {
        let options = match &self.constraints.options {
            Some(o) => {
                let mut values: Vec<String> = Vec::new();
                let n = o.len();
                let mut i: usize = 0;
                while i < n
                    invariant
                        n == o@.len(),
                        i <= n,
                        views(values@) == option_values(o@).subrange(0, i as int),
                    decreases n - i,
                {
                    let ghost before = views(values@);
                    let v = o[i].value.clone();
                    values.push(v);
                    assert(views(values@) =~= before.push(v@));
                    assert(option_values(o@).subrange(0, i + 1) =~= option_values(o@).subrange(0, i as int).push(o@[i as int].value@));
                    assert(views(values@) =~= option_values(o@).subrange(0, i + 1));
                    i += 1;
                }
                assert(option_values(o@).subrange(0, n as int) =~= option_values(o@));
                Some(values)
            },
            None => None,
        };
        let pattern = match &self.constraints.text.pattern {
            Some(p) => Some(p.clone()),
            None => None,
        };
        SchemaSetting {
            full_key: text(full_key),
            secret: self.is_secret(),
            default: self.default.clone(),
            setting_type: self.setting_type,
            pattern,
            options,
        }
    }
}

/// Whether some setting of `metas` has the string metadata `category` `c`.
pub open spec fn has_category(metas: Seq<SettingMetadata>, c: Seq<char>) -> bool {
    exists|i: int| 0 <= i < metas.len() && (#[trigger] metas[i]).meta_str_of("category"@) == Some(c)
}

/// Whether a list of strings is in strictly increasing order.
pub open spec fn strictly_sorted(s: Seq<Seq<char>>) -> bool {
    forall|i: int, j: int| 0 <= i < j < s.len() ==> text_lt(#[trigger] s[i], #[trigger] s[j])
}

/// The categories named by the settings' `category` metadata, sorted, each
/// once.
pub fn get_categories(metas: &Vec<SettingMetadata>) -> (r: Vec<String>)
    ensures
        strictly_sorted(views(r@)),
        forall|c: Seq<char>| #[trigger] views(r@).contains(c) <==> has_category(metas@, c),
{
    let mut out: Vec<String> = Vec::new();
    let n = metas.len();
    let mut i: usize = 0;
    while i < n
        invariant
            n == metas@.len(),
            i <= n,
            strictly_sorted(views(out@)),
            forall|c: Seq<char>| #[trigger] views(out@).contains(c) <==> exists|j: int| 0 <= j < i
                && (#[trigger] metas@[j]).meta_str_of("category"@) == Some(c),
        decreases n - i,
    {
        match metas[i].get_meta_str("category") {
            Some(c) => {
                let ghost before = views(out@);
                let m = out.len();
                let mut pos: usize = 0;
                while pos < m && text_less(out[pos].as_str(), c.as_str())
                    invariant
                        m == out@.len(),
                        pos <= m,
                        views(out@) == before,
                        forall|k: int| 0 <= k < pos ==> text_lt(#[trigger] before[k], c@),
                    decreases m - pos,
                {
                    pos += 1;
                }
                let present = pos < m && str_eq(out[pos].as_str(), c.as_str());
                if !present {
                    proof {
                        if pos < m {
                            lemma_text_lt_order(c@, before[pos as int], c@);
                        }
                    }
                    out.insert(pos, c);
                    proof {
                        let now = views(out@);
                        assert(now =~= before.insert(pos as int, c@));
                        assert forall|a: int, b: int| 0 <= a < b < now.len() implies text_lt(#[trigger] now[a], #[trigger] now[b]) by {
                            if b < pos {
                            } else if a < pos && b == pos {
                            } else if a < pos {
                                lemma_text_lt_order(now[a], c@, now[b]);
                                assert(now[b] == before[b - 1]);
                                if b - 1 > pos {
                                    lemma_text_lt_order(c@, before[pos as int], before[b - 1]);
                                }
                            } else if a == pos {
                                assert(now[b] == before[b - 1]);
                                if b - 1 > pos {
                                    lemma_text_lt_order(c@, before[pos as int], before[b - 1]);
                                }
                            } else {
                                assert(now[a] == before[a - 1]);
                                assert(now[b] == before[b - 1]);
                            }
                        }
                        assert forall|x: Seq<char>| #[trigger] now.contains(x) <==> exists|j: int| 0 <= j < i + 1
                            && (#[trigger] metas@[j]).meta_str_of("category"@) == Some(x) by {
                            if now.contains(x) && x != c@ {
                                let w = choose|w: int| 0 <= w < now.len() && now[w] == x;
                                if w < pos {
                                    assert(before[w] == x);
                                } else {
                                    assert(before[w - 1] == x);
                                }
                                assert(before.contains(x));
                            }
                            if x == c@ {
                                assert(now[pos as int] == x);
                            }
                            if exists|j: int| 0 <= j < i + 1 && (#[trigger] metas@[j]).meta_str_of("category"@) == Some(x) {
                                if x != c@ {
                                    assert(before.contains(x));
                                    let w = choose|w: int| 0 <= w < before.len() && before[w] == x;
                                    if w < pos {
                                        assert(now[w] == x);
                                    } else {
                                        assert(now[w + 1] == x);
                                    }
                                }
                            }
                        }
                    }
                } else {
                    proof {
                        assert(before[pos as int] == c@);
                        assert forall|x: Seq<char>| #[trigger] before.contains(x) <==> exists|j: int| 0 <= j < i + 1
                            && (#[trigger] metas@[j]).meta_str_of("category"@) == Some(x) by {
                            if x == c@ {
                                assert(before.contains(x));
                            }
                        }
                    }
                }
            },
            None => {},
        }
        i += 1;
    }
    out
}

} // verus!
