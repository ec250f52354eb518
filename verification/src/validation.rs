//! Checking a setting's value against its type and constraints. Values are
//! handled as JSON text, as `serde_json` writes it; text patterns are
//! regular expressions of the `regex` crate.
use vstd::prelude::*;

use crate::config::SettingType;
use crate::json::{decode_string, json_string_content};
use crate::text::{contains_str, join2, text, views};

verus! {

#[verifier::external_type_specification]
#[verifier::external_body]
pub struct ExRegex(regex::Regex);

/// Whether `regex::Regex::new` accepts a pattern.
pub uninterp spec fn regex_accepts(pattern: Seq<char>) -> bool;

/// The text of the error `regex::Regex::new` gives for a pattern it refuses.
pub uninterp spec fn regex_error_text(pattern: Seq<char>) -> Seq<char>;

/// Whether the regular expression compiled from `pattern` matches somewhere
/// in `haystack` (`Regex::is_match`).
pub uninterp spec fn regex_finds(pattern: Seq<char>, haystack: Seq<char>) -> bool;

/// A compiled regular expression, with the pattern it came from.
pub struct CompiledPattern {
    source: String,
    re: regex::Regex,
}

impl CompiledPattern {
    /// The pattern it was compiled from.
    pub closed spec fn source(&self) -> Seq<char> {
        self.source@
    }
}

/// `regex::Regex::new`: succeeds exactly where the pattern is accepted (named
/// by `regex_accepts`); the error is returned as its text (named by
/// `regex_error_text`).
#[verifier::external_body]
fn compile_pattern(pattern: &str) -> (r: Result<CompiledPattern, String>)
    ensures
        r is Ok == regex_accepts(pattern@),
        r matches Err(e) ==> e@ == regex_error_text(pattern@),
        r matches Ok(c) ==> c.source() == pattern@,
{
    match regex::Regex::new(pattern) {
        Ok(re) => Ok(CompiledPattern { source: pattern.to_string(), re }),
        Err(e) => Err(e.to_string()),
    }
}

/// `Regex::is_match`; named by `regex_finds` on the pattern's source.
#[verifier::external_body]
fn pattern_finds(p: &CompiledPattern, haystack: &str) -> (r: bool)
    ensures
        r == regex_finds(p.source(), haystack@),
{
    p.re.is_match(haystack)
}

/// The kind of a JSON value.
#[derive(Debug, Clone, Copy, PartialEq, Eq, Structural)]
pub enum JsonKind {
    Null,
    Bool,
    Number,
    Str,
    Array,
    Object,
}

/// The kind of the JSON value whose text (as `serde_json` writes it, with
/// nothing before the value) is `text`, read from its first character.
pub open spec fn json_kind(text: Seq<char>) -> JsonKind {
    if text.len() == 0 || text[0] == 'n' {
        JsonKind::Null
    } else if text[0] == 't' || text[0] == 'f' {
        JsonKind::Bool
    } else if text[0] == '"' {
        JsonKind::Str
    } else if text[0] == '[' {
        JsonKind::Array
    } else if text[0] == '{' {
        JsonKind::Object
    } else {
        JsonKind::Number
    }
}

/// The kind of a JSON value given as text.
pub fn kind_of(text: &str) -> (r: JsonKind)
    ensures
        r == json_kind(text@),
{
    if text.unicode_len() == 0 {
        return JsonKind::Null;
    }
    let c = text.get_char(0);
    if c == 'n' {
        JsonKind::Null
    } else if c == 't' || c == 'f' {
        JsonKind::Bool
    } else if c == '"' {
        JsonKind::Str
    } else if c == '[' {
        JsonKind::Array
    } else if c == '{' {
        JsonKind::Object
    } else {
        JsonKind::Number
    }
}

/// The text a pattern is matched against: the content of a JSON string, or
/// nothing for any other value.
pub open spec fn matched_text(value: Seq<char>) -> Seq<char> {
    match json_string_content(value) {
        Some(s) => s,
        None => Seq::empty(),
    }
}

/// What checking a value gives, by setting type:
///
/// * a toggle must be a boolean, a number a number, a list an array;
/// * a text with a pattern must match it (a pattern the `regex` crate
///   refuses is an error);
/// * a select with options must equal one of them;
/// * an informational setting takes anything.
///
/// The bounds of a number are floating point and checked by the caller.
pub open spec fn value_verdict(
    setting_type: SettingType,
    pattern: Option<Seq<char>>,
    options: Option<Seq<Seq<char>>>,
    value: Seq<char>,
) -> Result<(), Seq<char>> {
    match setting_type {
        SettingType::Toggle => if json_kind(value) == JsonKind::Bool {
            Ok(())
        } else {
            Err("Value must be a boolean"@)
        },
        SettingType::Number => if json_kind(value) == JsonKind::Number {
            Ok(())
        } else {
            Err("Value must be a number"@)
        },
        SettingType::Text => match pattern {
            None => Ok(()),
            Some(p) => if !regex_accepts(p) {
                Err("Invalid regex pattern: "@ + regex_error_text(p))
            } else if regex_finds(p, matched_text(value)) {
                Ok(())
            } else {
                Err("Value does not match pattern: "@ + p)
            },
        },
        SettingType::Select => match options {
            None => Ok(()),
            Some(o) => if o.contains(value) {
                Ok(())
            } else {
                Err("Value must be one of the available options"@)
            },
        },
        SettingType::List => if json_kind(value) == JsonKind::Array {
            Ok(())
        } else {
            Err("Value must be an array"@)
        },
        SettingType::Info => Ok(()),
    }
}

/// Whether `r` is what checking `value` gives (see `value_verdict`).
pub open spec fn value_check(
    setting_type: SettingType,
    pattern: Option<Seq<char>>,
    options: Option<Seq<Seq<char>>>,
    value: Seq<char>,
    r: Result<(), Seq<char>>,
) -> bool {
    r == value_verdict(setting_type, pattern, options, value)
}

/// The error text of a result, as a plain value.
pub open spec fn result_view(r: Result<(), String>) -> Result<(), Seq<char>> {
    match r {
        Ok(()) => Ok(()),
        Err(m) => Err(m@),
    }
}

/// Check a value (JSON text) against a setting's type, text pattern and
/// select options (their values as JSON text).
pub fn validate_setting_value(
    setting_type: SettingType,
    pattern: Option<&str>,
    options: Option<&Vec<String>>,
    value: &str,
) -> (r: Result<(), String>)
    ensures
        value_check(
            setting_type,
            match pattern {
                Some(p) => Some(p@),
                None => None,
            },
            match options {
                Some(o) => Some(views(o@)),
                None => None,
            },
            value@,
            result_view(r),
        ),
{
    match setting_type {
        SettingType::Toggle => {
            if kind_of(value) == JsonKind::Bool {
                Ok(())
            } else {
                Err(text("Value must be a boolean"))
            }
        },
        SettingType::Number => {
            if kind_of(value) == JsonKind::Number {
                Ok(())
            } else {
                Err(text("Value must be a number"))
            }
        },
        SettingType::Text => match pattern {
            None => Ok(()),
            Some(p) => {
                let re = match compile_pattern(p) {
                    Ok(re) => re,
                    Err(e) => {
                        return Err(join2("Invalid regex pattern: ", e.as_str()));
                    },
                };
                let haystack = match decode_string(value) {
                    Some(s) => s,
                    None => String::new(),
                };
                proof {
                    assert(haystack@ == matched_text(value@));
                }
                if pattern_finds(&re, haystack.as_str()) {
                    Ok(())
                } else {
                    Err(join2("Value does not match pattern: ", p))
                }
            },
        },
        SettingType::Select => match options {
            None => Ok(()),
            Some(o) => {
                if contains_str(o, value) {
                    Ok(())
                } else {
                    Err(text("Value must be one of the available options"))
                }
            },
        },
        SettingType::List => {
            if kind_of(value) == JsonKind::Array {
                Ok(())
            } else {
                Err(text("Value must be an array"))
            }
        },
        SettingType::Info => Ok(()),
    }
}

/// What checking a setting's own definition gives, in this order:
///
/// 1. a select must have options;
/// 2. the number constraints must be consistent (`range_error`: the problem
///    the caller found in the floating-point bounds and step, if any);
/// 3. a pattern must be accepted by the `regex` crate, and not be empty;
/// 4. the default must pass the value check, and for a number its bounds
///    (`default_bound_error`: the caller's floating-point check).
pub open spec fn schema_verdict(
    setting_type: SettingType,
    pattern: Option<Seq<char>>,
    options: Option<Seq<Seq<char>>>,
    default: Seq<char>,
    range_error: Option<Seq<char>>,
    default_bound_error: Option<Seq<char>>,
) -> Result<(), Seq<char>> {
    if setting_type == SettingType::Select && options is None {
        Err("Select type must have options defined"@)
    } else if range_error is Some {
        Err(range_error->0)
    } else if pattern is Some && !regex_accepts(pattern->0) {
        Err("Invalid regex pattern: "@ + regex_error_text(pattern->0))
    } else if pattern == Some(Seq::<char>::empty()) {
        Err("Pattern cannot be empty string"@)
    } else if let Err(m) = value_verdict(setting_type, pattern, options, default) {
        Err("Default value is invalid: "@ + m)
    } else if setting_type == SettingType::Number && default_bound_error is Some {
        Err("Default value is invalid: "@ + default_bound_error->0)
    } else {
        Ok(())
    }
}

/// Check a setting's definition: its type, pattern and options, and its
/// default (JSON text) against them. The floating-point parts (the order of
/// the bounds, the sign of the step, the default within the bounds) are
/// checked by the caller, which hands in the problems it found.
pub fn validate_schema(
    setting_type: SettingType,
    pattern: Option<&str>,
    options: Option<&Vec<String>>,
    default: &str,
    range_error: Option<String>,
    default_bound_error: Option<String>,
) -> (r: Result<(), String>)
    ensures
        result_view(r) == schema_verdict(
            setting_type,
            match pattern {
                Some(p) => Some(p@),
                None => None,
            },
            match options {
                Some(o) => Some(views(o@)),
                None => None,
            },
            default@,
            match range_error {
                Some(e) => Some(e@),
                None => None,
            },
            match default_bound_error {
                Some(e) => Some(e@),
                None => None,
            },
        ),
{
    if setting_type == SettingType::Select && options.is_none() {
        return Err(text("Select type must have options defined"));
    }
    match range_error {
        Some(e) => {
            return Err(e);
        },
        None => {},
    }
    match pattern {
        Some(p) => {
            match compile_pattern(p) {
                Ok(_) => {},
                Err(e) => {
                    return Err(join2("Invalid regex pattern: ", e.as_str()));
                },
            }
            if p.unicode_len() == 0 {
                assert(p@ =~= Seq::<char>::empty());
                return Err(text("Pattern cannot be empty string"));
            }
        },
        None => {},
    }
    match validate_setting_value(setting_type, pattern, options, default) {
        Err(m) => {
            return Err(join2("Default value is invalid: ", m.as_str()));
        },
        Ok(()) => {},
    }
    if setting_type == SettingType::Number {
        match default_bound_error {
            Some(e) => {
                return Err(join2("Default value is invalid: ", e.as_str()));
            },
            None => {},
        }
    }
    Ok(())
}

} // verus!

verus! {

/// A number setting accepts JSON numbers only: a value written as a
/// boolean, a string, an array, an object, `null` or nothing is refused
/// with "Value must be a number", and one that starts as a number does
/// (a digit or a minus sign) is accepted.
pub proof fn law_number_accepts_only_numbers(pattern: Option<Seq<char>>, options: Option<Seq<Seq<char>>>, v: Seq<char>)
    ensures
        (v.len() == 0 || v[0] == 't' || v[0] == 'f' || v[0] == '"' || v[0] == '[' || v[0] == '{' || v[0] == 'n')
            ==> value_verdict(SettingType::Number, pattern, options, v) == Err::<(), Seq<char>>("Value must be a number"@),
        v.len() > 0 && (('0' <= v[0] && v[0] <= '9') || v[0] == '-') ==> value_verdict(SettingType::Number, pattern,
            options, v) == Ok::<(), Seq<char>>(()),
{
}

} // verus!
