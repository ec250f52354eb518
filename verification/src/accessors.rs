//! Rules the schema derive applies to each field: how its Rust type is
//! classified, which attributes its kind admits, its category and key, and
//! the names of the accessor methods generated for it.
use vstd::prelude::*;

use crate::text::{contains_str, join2, join3, push_char, str_eq, text, views};
use crate::credentials::opt_view;

verus! {

/// An ASCII letter or digit.
pub open spec fn is_ascii_alnum(c: char) -> bool {
    ('a' <= c && c <= 'z') || ('A' <= c && c <= 'Z') || ('0' <= c && c <= '9')
}

/// The character as it stands in an identifier: ASCII letters and digits
/// in lowercase, anything else as `_`.
pub open spec fn ident_char(c: char) -> char {
    if 'A' <= c && c <= 'Z' {
        ((c as int) + 32) as char
    } else if is_ascii_alnum(c) {
        c
    } else {
        '_'
    }
}

/// A name made usable as part of an identifier: each character mapped by
/// `ident_char`, `_` put before a leading digit, and `_` for an empty name.
pub open spec fn ident_component(s: Seq<char>) -> Seq<char> {
    let m = Seq::new(s.len(), |i: int| ident_char(s[i]));
    if m.len() == 0 {
        seq!['_']
    } else if '0' <= m[0] && m[0] <= '9' {
        seq!['_'] + m
    } else {
        m
    }
}

/// Turn a name into a component of a Rust identifier.
pub fn sanitize_ident_component(value: &str) -> (r: String)
    ensures
        r@ == ident_component(value@),
{
    let mut out = String::new();
    let n = value.unicode_len();
    let mut i: usize = 0;
    while i < n
        invariant
            n == value@.len(),
            i <= n,
            out@ == Seq::new(i as nat, |k: int| ident_char(value@[k])),
        decreases n - i,
    {
        let c = value.get_char(i);
        let d = if 'A' <= c && c <= 'Z' {
            ((c as u8) + 32) as char
        } else if ('a' <= c && c <= 'z') || ('0' <= c && c <= '9') {
            c
        } else {
            '_'
        };
        push_char(&mut out, d);
        assert(out@ =~= Seq::new((i + 1) as nat, |k: int| ident_char(value@[k])));
        i += 1;
    }
    assert(out@ =~= Seq::new(value@.len(), |k: int| ident_char(value@[k])));
    if n == 0 {
        let mut r = String::new();
        push_char(&mut r, '_');
        assert(r@ =~= seq!['_']);
        return r;
    }
    let first = out.as_str().get_char(0);
    if '0' <= first && first <= '9' {
        let r = join2("_", out.as_str());
        proof {
            reveal_strlit("_");
            assert(r@ =~= seq!['_'] + out@);
        }
        r
    } else {
        out
    }
}

/// The getter and setter names of a field: the sanitized field name, put
/// after the sanitized category and `_` when there is a category; the
/// setter is the getter with `set_` in front.
pub open spec fn accessor_names(category: Seq<char>, field: Seq<char>) -> (Seq<char>, Seq<char>) {
    let getter = if category.len() == 0 {
        ident_component(field)
    } else {
        ident_component(category) + "_"@ + ident_component(field)
    };
    (getter, "set_"@ + getter)
}

/// The getter and setter names generated for a field in a category.
pub fn accessor_method_names(category: &str, field: &str) -> (r: (String, String))
    ensures
        (r.0@, r.1@) == accessor_names(category@, field@),
{
    let f = sanitize_ident_component(field);
    let getter = if category.unicode_len() == 0 {
        f
    } else {
        let c = sanitize_ident_component(category);
        join3(c.as_str(), "_", f.as_str())
    };
    let setter = join2("set_", getter.as_str());
    (getter, setter)
}

/// What kind of setting a field's type makes.
#[derive(Debug, Clone, Copy, PartialEq, Eq, Structural)]
pub enum TypeInfo {
    /// `bool`.
    Toggle,
    /// `String`.
    Text,
    /// `PathBuf`.
    Path,
    /// The integer and floating-point types.
    Number,
    /// `Vec<T>`.
    List,
    /// Anything else (a nested struct, or a type the derive does not handle).
    Unknown,
}

/// Whether a type name is one of the primitive number types.
pub open spec fn is_number_type(name: Seq<char>) -> bool {
    ||| name == "i8"@ ||| name == "i16"@ ||| name == "i32"@ ||| name == "i64"@ ||| name == "i128"@
    ||| name == "isize"@ ||| name == "u8"@ ||| name == "u16"@ ||| name == "u32"@ ||| name == "u64"@
    ||| name == "u128"@ ||| name == "usize"@ ||| name == "f32"@ ||| name == "f64"@
}

/// The kind a type makes, by the last segment of its path.
pub open spec fn type_info_of(name: Seq<char>) -> TypeInfo {
    if name == "bool"@ {
        TypeInfo::Toggle
    } else if name == "String"@ {
        TypeInfo::Text
    } else if name == "PathBuf"@ {
        TypeInfo::Path
    } else if is_number_type(name) {
        TypeInfo::Number
    } else if name == "Vec"@ {
        TypeInfo::List
    } else {
        TypeInfo::Unknown
    }
}

/// Classify a field's type by the last segment of its path.
pub fn classify_type_name(name: &str) -> (r: TypeInfo)
    ensures
        r == type_info_of(name@),
{
    if str_eq(name, "bool") {
        return TypeInfo::Toggle;
    }
    if str_eq(name, "String") {
        return TypeInfo::Text;
    }
    if str_eq(name, "PathBuf") {
        return TypeInfo::Path;
    }
    if str_eq(name, "i8") || str_eq(name, "i16") || str_eq(name, "i32") || str_eq(name, "i64") || str_eq(name, "i128")
        || str_eq(name, "isize") || str_eq(name, "u8") || str_eq(name, "u16") || str_eq(name, "u32") || str_eq(
        name,
        "u64",
    ) || str_eq(name, "u128") || str_eq(name, "usize") || str_eq(name, "f32") || str_eq(name, "f64") {
        return TypeInfo::Number;
    }
    if str_eq(name, "Vec") {
        return TypeInfo::List;
    }
    TypeInfo::Unknown
}

/// What checking a field's attributes against its kind gives, in this
/// order: the problem of its bounds and step (`range_error`, found by the
/// caller in the floating-point values), then attributes its kind does not
/// admit: `pattern` on a number, bounds or step on anything but a number,
/// `pattern` or `options` on a toggle or a list.
pub open spec fn field_constraints_verdict(
    t: TypeInfo,
    has_bounds_or_step: bool,
    has_pattern: bool,
    has_options: bool,
    range_error: Option<Seq<char>>,
) -> Result<(), Seq<char>> {
    if range_error is Some {
        Err(range_error->0)
    } else {
        match t {
            TypeInfo::Number => if has_pattern {
                Err("`pattern` is only valid for text settings, not numbers"@)
            } else {
                Ok(())
            },
            TypeInfo::Text | TypeInfo::Path => if has_bounds_or_step {
                Err("`min/max/step` are only valid for numeric settings, not text"@)
            } else {
                Ok(())
            },
            TypeInfo::Toggle => if has_bounds_or_step {
                Err("`min/max/step` are only valid for numeric settings, not booleans"@)
            } else if has_pattern {
                Err("`pattern` is only valid for text settings, not booleans"@)
            } else if has_options {
                Err("`options` are only valid for text/number settings, not booleans"@)
            } else {
                Ok(())
            },
            _ => if has_bounds_or_step {
                Err("`min/max/step` are only valid for numeric settings, not lists"@)
            } else if has_pattern {
                Err("`pattern` is only valid for text settings, not lists"@)
            } else if has_options {
                Err("`options` are only valid for text/number settings, not lists"@)
            } else {
                Ok(())
            },
        }
    }
}

/// Check a field's attributes against its kind (see
/// `field_constraints_verdict`). A field of unknown kind is refused before
/// this check unless its bounds are already in error.
pub fn validate_field_type_constraints(
    t: TypeInfo,
    has_min: bool,
    has_max: bool,
    has_step: bool,
    has_pattern: bool,
    has_options: bool,
    range_error: Option<String>,
) -> (r: Result<(), String>)
    requires
        t != TypeInfo::Unknown || range_error is Some,
    ensures
        match r {
            Ok(()) => field_constraints_verdict(t, has_min || has_max || has_step, has_pattern, has_options,
                opt_view(range_error)) == Ok::<(), Seq<char>>(()),
            Err(m) => field_constraints_verdict(t, has_min || has_max || has_step, has_pattern, has_options,
                opt_view(range_error)) == Err::<(), Seq<char>>(m@),
        },
{
    match range_error {
        Some(e) => {
            return Err(e);
        },
        None => {},
    }
    let bounds = has_min || has_max || has_step;
    match t {
        TypeInfo::Number => {
            if has_pattern {
                return Err(text("`pattern` is only valid for text settings, not numbers"));
            }
        },
        TypeInfo::Text | TypeInfo::Path => {
            if bounds {
                return Err(text("`min/max/step` are only valid for numeric settings, not text"));
            }
        },
        TypeInfo::Toggle => {
            if bounds {
                return Err(text("`min/max/step` are only valid for numeric settings, not booleans"));
            }
            if has_pattern {
                return Err(text("`pattern` is only valid for text settings, not booleans"));
            }
            if has_options {
                return Err(text("`options` are only valid for text/number settings, not booleans"));
            }
        },
        _ => {
            if bounds {
                return Err(text("`min/max/step` are only valid for numeric settings, not lists"));
            }
            if has_pattern {
                return Err(text("`pattern` is only valid for text settings, not lists"));
            }
            if has_options {
                return Err(text("`options` are only valid for text/number settings, not lists"));
            }
        },
    }
    Ok(())
}

/// A field's category: its own, else the container's; one of them is
/// required.
pub fn resolve_field_category(field: Option<&str>, container: Option<&str>) -> (r: Result<String, String>)
    ensures
        match (field, container) {
            (Some(f), _) => r matches Ok(c) && c@ == f@,
            (None, Some(k)) => r matches Ok(c) && c@ == k@,
            (None, None) => r matches Err(m) && m@ == "Category is required. Add #[schema(category = \"name\")] to the struct or #[setting(category = \"name\")] to this field"@,
        },
{
    match field {
        Some(f) => Ok(text(f)),
        None => match container {
            Some(k) => Ok(text(k)),
            None => Err(text(
                "Category is required. Add #[schema(category = \"name\")] to the struct or #[setting(category = \"name\")] to this field",
            )),
        },
    }
}

/// The key of a field's setting: its name (or the name it is renamed to),
/// after its category and a dot where the category is not empty.
pub open spec fn field_key(category: Seq<char>, name: Seq<char>, rename: Option<Seq<char>>) -> Seq<char> {
    let n = match rename {
        Some(x) => x,
        None => name,
    };
    if category.len() == 0 {
        n
    } else {
        category + "."@ + n
    }
}

/// The key under which a field's setting is registered.
pub fn setting_key(category: &str, name: &str, rename: Option<&str>) -> (r: String)
    ensures
        r@ == field_key(category@, name@, match rename {
            Some(x) => Some(x@),
            None => None,
        }),
{
    let n = match rename {
        Some(x) => x,
        None => name,
    };
    if category.unicode_len() == 0 {
        text(n)
    } else {
        join3(category, ".", n)
    }
}

/// Record a generated method name; a name generated twice is an error and
/// is not recorded again.
pub fn register_method_name(used: &mut Vec<String>, name: &str) -> (r: Result<(), String>)
    ensures
        views(old(used)@).contains(name@) ==> (r matches Err(m)
            && m@ == "Duplicate generated accessor method name `"@ + name@ + "` detected"@
            && final(used)@ == old(used)@),
        !views(old(used)@).contains(name@) ==> r is Ok && views(final(used)@) == views(old(used)@).push(name@),
        views(old(used)@).no_duplicates() ==> views(final(used)@).no_duplicates(),
{
    if contains_str(used, name) {
        return Err(join3("Duplicate generated accessor method name `", name, "` detected"));
    }
    let ghost before = views(used@);
    used.push(text(name));
    assert(views(used@) =~= before.push(name@));
    proof {
        if before.no_duplicates() {
            assert forall|a: int, b: int| 0 <= a < b < views(used@).len() implies views(used@)[a] != views(used@)[b] by {
                if b == before.len() {
                    assert(before.contains(before[a]));
                }
            }
        }
    }
    Ok(())
}

/// The accessors generated for a field of a category.
#[derive(Debug, Clone)]
pub struct AccessorPlan {
    /// The getter's name.
    pub getter: String,
    /// The setter's name.
    pub setter: String,
    /// The name the setting has within its category.
    pub key_name: String,
    /// The setting's full key.
    pub full_key: String,
    /// Whether accessors are generated on the manager too: not for an empty
    /// category, whose keys cannot be split into category and name.
    pub manager_methods: bool,
}

/// Plan the accessors of a field: its getter and setter names, each
/// registered as used (a name used before is an error, and the getter is
/// then the only name added if the setter clashes), its key, and whether
/// the manager gets accessors.
pub fn plan_accessors(used: &mut Vec<String>, category: &str, field: &str, rename: Option<&str>) -> (r: Result<AccessorPlan, String>)
    ensures
        ({
            let (g, st) = accessor_names(category@, field@);
            let before = views(old(used)@);
            if before.contains(g) {
                r matches Err(m) && m@ == "Duplicate generated accessor method name `"@ + g + "` detected"@
                    && final(used)@ == old(used)@
            } else if before.push(g).contains(st) {
                r matches Err(m) && m@ == "Duplicate generated accessor method name `"@ + st + "` detected"@
                    && views(final(used)@) == before.push(g)
            } else {
                r matches Ok(p) && p.getter@ == g && p.setter@ == st && views(final(used)@) == before.push(g).push(st)
                    && p.key_name@ == (match rename {
                        Some(x) => x@,
                        None => field@,
                    }) && p.full_key@ == field_key(category@, field@, match rename {
                        Some(x) => Some(x@),
                        None => None,
                    }) && p.manager_methods == (category@.len() > 0)
            }
        }),
        views(old(used)@).no_duplicates() ==> views(final(used)@).no_duplicates(),
{
    let (getter, setter) = accessor_method_names(category, field);
    match register_method_name(used, getter.as_str()) {
        Ok(()) => {},
        Err(e) => {
            return Err(e);
        },
    }
    match register_method_name(used, setter.as_str()) {
        Ok(()) => {},
        Err(e) => {
            return Err(e);
        },
    }
    let key_name = match rename {
        Some(x) => text(x),
        None => text(field),
    };
    let full_key = setting_key(category, field, rename);
    Ok(AccessorPlan { getter, setter, key_name, full_key, manager_methods: category.unicode_len() > 0 })
}

} // verus!
