//! Settings configuration: setting types, credential storage choice, hot
//! reload options and the names of environment overrides.
use vstd::prelude::*;

use crate::text::{join3, push_char};

verus! {

/// Type of setting for UI rendering.
#[derive(Debug, Clone, Copy, PartialEq, Eq, Structural)]
pub enum SettingType {
    /// Boolean toggle.
    Toggle,
    /// Text input.
    Text,
    /// Numeric input.
    Number,
    /// Dropdown/select with predefined options.
    Select,
    /// Read-only display.
    Info,
    /// List of strings.
    List,
}

impl Default for SettingType {
    fn default() -> (r: Self)
        ensures
            r == SettingType::Text,
    {
        SettingType::Text
    }
}

/// Constraints for Text type settings.
#[derive(Debug, Clone, PartialEq, Eq)]
pub struct TextConstraints {
    /// Regex pattern for validation.
    pub pattern: Option<String>,
}

impl Default for TextConstraints {
    fn default() -> (r: Self)
        ensures
            r.pattern is None,
    {
        TextConstraints { pattern: None }
    }
}

/// Configuration for how credentials should be stored. A backend of the
/// application's own is handed to the credential manager directly.
#[derive(Debug, Clone)]
pub enum CredentialConfig {
    /// Credentials are disabled (default behavior when not configured).
    Disabled,
    /// Use the default backend (Keychain if enabled, otherwise Memory).
    Default,
    /// Use Keychain with an encrypted-file fallback.
    WithFallback {
        /// Path to the encrypted JSON file.
        fallback_path: String,
        /// 32-byte encryption key.
        encryption_key: [u8; 32],
    },
}

/// Backend strategy for file watching in hot-reload mode.
#[derive(Debug, Clone, Copy, PartialEq, Eq, Structural)]
pub enum HotReloadBackend {
    /// Use the OS-native watcher backend when available.
    Auto,
    /// Force polling mode with `poll_interval_ms`.
    Poll,
}

impl Default for HotReloadBackend {
    fn default() -> (r: Self)
        ensures
            r == HotReloadBackend::Auto,
    {
        HotReloadBackend::Auto
    }
}

/// Configuration for hot-reload behavior.
#[derive(Debug, Clone, Copy, PartialEq, Eq, Structural)]
pub struct HotReloadConfig {
    /// Debounce window for coalescing bursty filesystem events.
    pub debounce_ms: u64,
    /// Polling interval used when backend is `Poll`.
    pub poll_interval_ms: u64,
    /// Filesystem watching backend strategy.
    pub backend: HotReloadBackend,
}

impl Default for HotReloadConfig {
    fn default() -> (r: Self)
        ensures
            r.debounce_ms == 200,
            r.poll_interval_ms == 1000,
            r.backend == HotReloadBackend::Auto,
    {
        HotReloadConfig { debounce_ms: 200, poll_interval_ms: 1000, backend: HotReloadBackend::Auto }
    }
}

/// The uppercase form of a string, as std's `str::to_uppercase` gives it
/// (by the Unicode uppercase mapping).
pub uninterp spec fn upper_case(s: Seq<char>) -> Seq<char>;

/// `str::to_uppercase`; its result is named by `upper_case`.
#[verifier::external_body]
fn to_upper(s: &str) -> (r: String)
    ensures
        r@ == upper_case(s@),
{
    s.to_uppercase()
}

/// A setting key with each `.` replaced by `_`.
pub open spec fn dots_to_underscores(key: Seq<char>) -> Seq<char> {
    Seq::new(key.len(), |i: int| if key[i] == '.' { '_' } else { key[i] })
}

fn replace_dots(key: &str) -> (r: String)
    ensures
        r@ == dots_to_underscores(key@),
{
    let mut out = String::new();
    let n = key.unicode_len();
    let mut i: usize = 0;
    while i < n
        invariant
            n == key@.len(),
            i <= n,
            out@ == dots_to_underscores(key@.subrange(0, i as int)),
        decreases n - i,
    {
        let c = key.get_char(i);
        push_char(&mut out, if c == '.' { '_' } else { c });
        assert(out@ =~= dots_to_underscores(key@.subrange(0, i + 1)));
        i += 1;
    }
    assert(key@.subrange(0, n as int) =~= key@);
    out
}

/// The environment variable that overrides a setting:
/// `{PREFIX}_{CATEGORY}_{KEY}`, all uppercase.
pub open spec fn env_var_name(prefix: Seq<char>, key: Seq<char>) -> Seq<char> {
    upper_case(prefix) + "_"@ + upper_case(dots_to_underscores(key))
}

/// The environment variable that overrides a setting, or `None` where
/// environment overrides are disabled (no prefix).
pub fn get_env_var_name(prefix: Option<&str>, key: &str) -> (r: Option<String>)
    ensures
        match prefix {
            Some(p) => (r matches Some(n) && n@ == env_var_name(p@, key@)),
            None => r is None,
        },
{
    match prefix {
        Some(p) => {
            let up = to_upper(p);
            let k = replace_dots(key);
            let uk = to_upper(k.as_str());
            Some(join3(up.as_str(), "_", uk.as_str()))
        },
        None => None,
    }
}

} // verus!

verus! {

/// The lower-case form of an ASCII letter; any other character as it is.
pub open spec fn ascii_lower(c: char) -> char {
    if 'A' <= c && c <= 'Z' {
        ((c as int) + 32) as char
    } else {
        c
    }
}

/// Whether two strings are equal ignoring ASCII case.
pub open spec fn eq_ignore_ascii_case(a: Seq<char>, b: Seq<char>) -> bool {
    a.len() == b.len() && forall|i: int| 0 <= i < a.len() ==> ascii_lower(a[i]) == ascii_lower(b[i])
}

/// The number written by a string of decimal digits.
pub open spec fn digits_value(s: Seq<char>) -> int
    decreases s.len(),
{
    if s.len() == 0 {
        0
    } else {
        digits_value(s.drop_last()) * 10 + (s.last() as int - '0' as int)
    }
}

/// Whether every character is a decimal digit.
pub open spec fn all_digits(s: Seq<char>) -> bool {
    forall|i: int| 0 <= i < s.len() ==> '0' <= #[trigger] s[i] && s[i] <= '9'
}

/// The `i64` that `str::parse::<i64>` reads from a string: an optional `+`
/// or `-`, then at least one decimal digit and nothing else, within range.
pub open spec fn parsed_i64(s: Seq<char>) -> Option<int> {
    let neg = s.len() > 0 && s[0] == '-';
    let body = if s.len() > 0 && (s[0] == '-' || s[0] == '+') {
        s.drop_first()
    } else {
        s
    };
    let v = if neg {
        -digits_value(body)
    } else {
        digits_value(body)
    };
    if body.len() > 0 && all_digits(body) && i64::MIN <= v <= i64::MAX {
        Some(v)
    } else {
        None
    }
}

/// How an override given as text that is not JSON is read: `true` or
/// `false` in any ASCII case as a boolean, an `i64` as an integer; anything
/// else is left to the caller (a floating-point number, else the text).
#[derive(Debug, Clone, Copy, PartialEq, Eq)]
pub enum EnvOverride {
    /// A boolean.
    Bool(bool),
    /// An integer.
    Int(i64),
    /// Neither.
    Other,
}

/// What an override given as text that is not JSON reads as.
pub open spec fn env_override_of(s: Seq<char>) -> EnvOverride {
    if eq_ignore_ascii_case(s, "true"@) {
        EnvOverride::Bool(true)
    } else if eq_ignore_ascii_case(s, "false"@) {
        EnvOverride::Bool(false)
    } else {
        match parsed_i64(s) {
            Some(v) => EnvOverride::Int(v as i64),
            None => EnvOverride::Other,
        }
    }
}

/// A longer string of digits writes at least as large a number.
proof fn lemma_digits_value_grows(s: Seq<char>, k: int)
    requires
        0 <= k <= s.len(),
        all_digits(s),
    ensures
        digits_value(s.subrange(0, k)) <= digits_value(s),
        digits_value(s.subrange(0, k)) >= 0,
    decreases s.len() - k,
{
    if k < s.len() {
        lemma_digits_value_grows(s, k + 1);
        assert(s.subrange(0, k + 1).drop_last() =~= s.subrange(0, k));
        assert('0' <= s[k] && s[k] <= '9');
    } else {
        assert(s.subrange(0, k) =~= s);
        lemma_digits_nonneg(s);
    }
}

proof fn lemma_digits_nonneg(s: Seq<char>)
    requires
        all_digits(s),
    ensures
        digits_value(s) >= 0,
    decreases s.len(),
{
    if s.len() > 0 {
        assert(all_digits(s.drop_last())) by {
            assert forall|i: int| 0 <= i < s.drop_last().len() implies '0' <= #[trigger] s.drop_last()[i]
                && s.drop_last()[i] <= '9' by {
                assert(s.drop_last()[i] == s[i]);
            }
        }
        lemma_digits_nonneg(s.drop_last());
        assert('0' <= s[s.len() - 1]);
    }
}

fn equal_ignoring_ascii_case(a: &str, b: &str) -> (r: bool)
    ensures
        r == eq_ignore_ascii_case(a@, b@),
{
    let n = a.unicode_len();
    if n != b.unicode_len() {
        return false;
    }
    let mut i: usize = 0;
    while i < n
        invariant
            n == a@.len(),
            n == b@.len(),
            i <= n,
            forall|j: int| 0 <= j < i ==> ascii_lower(a@[j]) == ascii_lower(b@[j]),
        decreases n - i,
    {
        let x = a.get_char(i);
        let y = b.get_char(i);
        let lx = if 'A' <= x && x <= 'Z' { ((x as u8) + 32) as char } else { x };
        let ly = if 'A' <= y && y <= 'Z' { ((y as u8) + 32) as char } else { y };
        if lx != ly {
            return false;
        }
        i += 1;
    }
    true
}

/// Read `str::parse::<i64>`'s way.
fn parse_i64(s: &str) -> (r: Option<i64>)
    ensures
        match parsed_i64(s@) {
            Some(v) => r == Some(v as i64),
            None => r is None,
        },
{
    let n = s.unicode_len();
    let mut start: usize = 0;
    let mut neg = false;
    if n > 0 {
        let c = s.get_char(0);
        if c == '-' {
            neg = true;
            start = 1;
        } else if c == '+' {
            start = 1;
        }
    }
    let ghost body = s@.subrange(start as int, n as int);
    proof {
        if start == 1 {
            assert(body =~= s@.drop_first());
        } else {
            assert(body =~= s@);
        }
    }
    if start >= n {
        return None;
    }
    // magnitudes above this cannot be an i64
    let limit: i128 = 9223372036854775808;
    let mut v: i128 = 0;
    let mut too_big = false;
    let mut i: usize = start;
    while i < n
        invariant
            start <= i <= n,
            n == s@.len(),
            limit == 9223372036854775808,
            start == 0 || start == 1,
            start == 1 <==> (n > 0 && (s@[0] == '-' || s@[0] == '+')),
            neg <==> (n > 0 && s@[0] == '-'),
            body == s@.subrange(start as int, n as int),
            forall|j: int| start <= j < i ==> '0' <= #[trigger] s@[j] && s@[j] <= '9',
            !too_big ==> v == digits_value(s@.subrange(start as int, i as int)),
            !too_big ==> 0 <= v <= limit,
            too_big ==> digits_value(s@.subrange(start as int, i as int)) > limit,
        decreases n - i,
    {
        let c = s.get_char(i);
        if c < '0' || c > '9' {
            proof {
                assert(body[i - start] == c);
                assert(!all_digits(body));
                assert(parsed_i64(s@) is None);
            }
            return None;
        }
        let ghost pre = s@.subrange(start as int, i as int);
        let ghost cur = s@.subrange(start as int, i + 1);
        proof {
            assert(cur.drop_last() =~= pre);
            assert(cur.last() == c);
        }
        if !too_big {
            v = v * 10 + ((c as u32) - ('0' as u32)) as i128;
            if v > limit {
                too_big = true;
            }
        } else {
            proof {
                assert(all_digits(cur)) by {
                    assert forall|j: int| 0 <= j < cur.len() implies '0' <= #[trigger] cur[j] && cur[j] <= '9' by {
                        assert(cur[j] == s@[start + j]);
                    }
                }
                lemma_digits_nonneg(pre);
            }
        }
        i += 1;
    }
    proof {
        assert(s@.subrange(start as int, n as int) == body);
        assert(all_digits(body)) by {
            assert forall|j: int| 0 <= j < body.len() implies '0' <= #[trigger] body[j] && body[j] <= '9' by {
                assert(body[j] == s@[start + j]);
            }
        }
    }
    if too_big {
        return None;
    }
    if neg {
        Some((-v) as i64)
    } else if v == limit {
        None
    } else {
        Some(v as i64)
    }
}

/// How an override given as text that is not JSON reads.
pub fn classify_env_override(text: &str) -> (r: EnvOverride)
    ensures
        r == env_override_of(text@),
{
    if equal_ignoring_ascii_case(text, "true") {
        return EnvOverride::Bool(true);
    }
    if equal_ignoring_ascii_case(text, "false") {
        return EnvOverride::Bool(false);
    }
    match parse_i64(text) {
        Some(v) => EnvOverride::Int(v),
        None => EnvOverride::Other,
    }
}

} // verus!
