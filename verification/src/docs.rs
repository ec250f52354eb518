//! Documentation of a settings schema: options and the text pieces of the
//! generated Markdown.
use vstd::prelude::*;

use crate::config::SettingType;
use crate::credentials::opt_view;
use crate::json::{decode_string, json_string_content};
use crate::metadata::{SettingMetadata, SettingOption};
use crate::text::{lemma_text_lt_order, str_eq, text, text_less, text_lt};

verus! {

/// Configuration for docs generation.
#[derive(Debug, Clone)]
pub struct DocsConfig {
    /// Title for the documentation.
    pub title: Option<String>,
    /// Description/introduction text.
    pub description: Option<String>,
    /// Whether to show advanced settings.
    pub show_advanced: bool,
    /// Whether to group by category.
    pub group_by_category: bool,
}

impl Default for DocsConfig {
    fn default() -> (r: Self)
        ensures
            r.title is None,
            r.description is None,
            !r.show_advanced,
            !r.group_by_category,
    {
        DocsConfig { title: None, description: None, show_advanced: false, group_by_category: false }
    }
}

impl DocsConfig {
    /// Docs with advanced settings shown and settings grouped by category.
    pub fn new() -> (r: Self)
        ensures
            r.title is None,
            r.description is None,
            r.show_advanced,
            r.group_by_category,
    {
        DocsConfig { title: None, description: None, show_advanced: true, group_by_category: true }
    }

    /// Set the title.
    pub fn with_title(self, title: &str) -> (r: Self)
        ensures
            opt_view(r.title) == Some(title@),
            r.description == self.description,
            r.show_advanced == self.show_advanced,
            r.group_by_category == self.group_by_category,
    {
        DocsConfig { title: Some(text(title)), ..self }
    }

    /// Set the description.
    pub fn with_description(self, desc: &str) -> (r: Self)
        ensures
            opt_view(r.description) == Some(desc@),
            r.title == self.title,
            r.show_advanced == self.show_advanced,
            r.group_by_category == self.group_by_category,
    {
        DocsConfig { description: Some(text(desc)), ..self }
    }

    /// Leave advanced settings out.
    pub fn hide_advanced(self) -> (r: Self)
        ensures
            !r.show_advanced,
            r.title == self.title,
            r.description == self.description,
            r.group_by_category == self.group_by_category,
    {
        DocsConfig { show_advanced: false, ..self }
    }
}

/// How a setting type is named in the docs.
pub open spec fn type_label(t: SettingType) -> Seq<char> {
    match t {
        SettingType::Toggle => "Boolean"@,
        SettingType::Text => "String"@,
        SettingType::Number => "Number"@,
        SettingType::Select => "Select"@,
        SettingType::Info => "Info (Read-only)"@,
        SettingType::List => "List (Strings)"@,
    }
}

/// The name of a setting type in the docs.
pub fn format_type(t: &SettingType) -> (r: &'static str)
    ensures
        r@ == type_label(*t),
{
    match t {
        SettingType::Toggle => "Boolean",
        SettingType::Text => "String",
        SettingType::Number => "Number",
        SettingType::Select => "Select",
        SettingType::Info => "Info (Read-only)",
        SettingType::List => "List (Strings)",
    }
}

/// The uppercase mapping of a character, as std's `char::to_uppercase`
/// yields it (one or more characters).
pub uninterp spec fn char_upper_case(c: char) -> Seq<char>;

/// `char::to_uppercase`, collected into a string; named by `char_upper_case`.
#[verifier::external_body]
fn upper_char(c: char) -> (r: String)
    ensures
        r@ == char_upper_case(c),
{
    c.to_uppercase().collect()
}

/// A string with its first character in uppercase.
pub open spec fn capitalized(s: Seq<char>) -> Seq<char> {
    if s.len() == 0 {
        s
    } else {
        char_upper_case(s[0]) + s.drop_first()
    }
}

/// Capitalize the first character of a string.
pub fn capitalize(s: &str) -> (r: String)
    ensures
        r@ == capitalized(s@),
{
    let n = s.unicode_len();
    if n == 0 {
        return String::new();
    }
    let mut r = upper_char(s.get_char(0));
    let rest = s.substring_char(1, n);
    r.append(rest);
    assert(rest@ =~= s@.drop_first());
    r
}

/// An option of a select setting, as the docs show it.
#[derive(Debug, Clone)]
pub struct DocOption {
    /// The option's value, formatted.
    pub value: String,
    /// The option's label.
    pub label: String,
    /// What the option means, if told.
    pub description: Option<String>,
}

/// A setting as the docs describe it: its key, the metadata the docs read,
/// and its values already formatted as text.
#[derive(Debug, Clone)]
pub struct DocEntry {
    /// The setting's key (`category.name`).
    pub key: String,
    /// The `category` metadata, if set.
    pub category: Option<String>,
    /// The `order` metadata as a whole number, if set.
    pub order: Option<i32>,
    /// The `advanced` flag.
    pub advanced: bool,
    /// The `requires_restart` flag.
    pub requires_restart: bool,
    /// The `secret` flag.
    pub secret: bool,
    /// The `disabled` flag.
    pub disabled: bool,
    /// The `description` metadata, if set.
    pub description: Option<String>,
    /// The setting's type.
    pub setting_type: SettingType,
    /// The default value, formatted.
    pub default_value: String,
    /// The number range (minimum, maximum), formatted, when both are set.
    pub range: Option<(String, String)>,
    /// The number step, formatted, if set.
    pub step: Option<String>,
    /// The text pattern, if set.
    pub pattern: Option<String>,
    /// The options of a select setting, if any.
    pub options: Option<Vec<DocOption>>,
}

/// The category a setting is listed under: its `category`, or `General`.
pub open spec fn category_of(e: DocEntry) -> Seq<char> {
    match e.category {
        Some(c) => c@,
        None => "General"@,
    }
}

/// The position a setting asks for within its category: its `order`, or 999.
pub open spec fn order_of(e: DocEntry) -> int {
    match e.order {
        Some(o) => o as int,
        None => 999,
    }
}

/// The order of settings in the docs: by category, then by order, then by key.
pub open spec fn doc_lt(a: DocEntry, b: DocEntry) -> bool {
    ||| text_lt(category_of(a), category_of(b))
    ||| (category_of(a) == category_of(b) && order_of(a) < order_of(b))
    ||| (category_of(a) == category_of(b) && order_of(a) == order_of(b) && text_lt(a.key@, b.key@))
}

/// Settings in docs order (settings that tie may stand either way).
pub open spec fn in_doc_order(s: Seq<DocEntry>) -> bool {
    forall|i: int, j: int| 0 <= i < j < s.len() ==> !doc_lt(#[trigger] s[j], #[trigger] s[i])
}

/// Whether the docs show a setting: advanced ones only where asked for.
pub open spec fn is_shown(e: DocEntry, show_advanced: bool) -> bool {
    show_advanced || !e.advanced
}

proof fn lemma_doc_lt(a: DocEntry, b: DocEntry, c: DocEntry)
    ensures
        !doc_lt(a, a),
        doc_lt(a, b) ==> !doc_lt(b, a),
        doc_lt(a, b) && doc_lt(b, c) ==> doc_lt(a, c),
        doc_lt(a, b) && !doc_lt(c, b) ==> doc_lt(a, c),
{
    lemma_text_lt_order(category_of(a), category_of(b), category_of(c));
    lemma_text_lt_order(a.key@, b.key@, c.key@);
    lemma_text_lt_order(category_of(b), category_of(c), category_of(a));
    lemma_text_lt_order(b.key@, c.key@, a.key@);
    lemma_text_lt_order(category_of(c), category_of(a), category_of(b));
    lemma_text_lt_order(c.key@, a.key@, b.key@);
    lemma_text_lt_order(category_of(a), category_of(c), category_of(b));
    lemma_text_lt_order(a.key@, c.key@, b.key@);
    lemma_text_lt_order(category_of(b), category_of(a), category_of(c));
    lemma_text_lt_order(b.key@, a.key@, c.key@);
    lemma_text_lt_order(category_of(c), category_of(b), category_of(a));
    lemma_text_lt_order(c.key@, b.key@, a.key@);
}

fn category_text(e: &DocEntry) -> (r: String)
    ensures
        r@ == category_of(*e),
{
    match &e.category {
        Some(c) => c.clone(),
        None => text("General"),
    }
}

fn order_value(e: &DocEntry) -> (r: i32)
    ensures
        r as int == order_of(*e),
{
    match e.order {
        Some(o) => o,
        None => 999,
    }
}

/// Whether `a` comes before `b` in the docs.
fn doc_less(a: &DocEntry, b: &DocEntry) -> (r: bool)
    ensures
        r == doc_lt(*a, *b),
{
    let ca = category_text(a);
    let cb = category_text(b);
    if text_less(ca.as_str(), cb.as_str()) {
        return true;
    }
    if !str_eq(ca.as_str(), cb.as_str()) {
        return false;
    }
    let oa = order_value(a);
    let ob = order_value(b);
    if oa < ob {
        return true;
    }
    if oa != ob {
        return false;
    }
    text_less(a.key.as_str(), b.key.as_str())
}

fn insert_in_order(out: &mut Vec<DocEntry>, e: DocEntry)
    requires
        in_doc_order(old(out)@),
    ensures
        in_doc_order(final(out)@),
        final(out)@.to_multiset() == old(out)@.to_multiset().insert(e),
{
    let n = out.len();
    let mut p: usize = 0;
    while p < n
        invariant
            n == out@.len(),
            p <= n,
            forall|k: int| 0 <= k < p ==> !doc_lt(e, #[trigger] out@[k]),
        ensures
            p <= n,
            forall|k: int| 0 <= k < p ==> !doc_lt(e, #[trigger] out@[k]),
            p == n || doc_lt(e, out@[p as int]),
        decreases n - p,
    {
        if doc_less(&e, &out[p]) {
            break;
        }
        p += 1;
    }
    let ghost before = out@;
    let ghost ge = e;
    proof {
        vstd::seq_lib::to_multiset_insert(before, p as int, ge);
    }
    out.insert(p, e);
    proof {
        let t = out@;
        assert(t == before.insert(p as int, ge));
        assert forall|i: int, j: int| 0 <= i < j < t.len() implies !doc_lt(#[trigger] t[j], #[trigger] t[i]) by {
            if j < p {
                assert(t[i] == before[i] && t[j] == before[j]);
            } else if j == p {
                assert(t[i] == before[i]);
                assert(t[j] == ge);
            } else if i == p {
                assert(t[j] == before[j - 1]);
                assert(t[i] == ge);
                assert(doc_lt(ge, before[p as int]));
                if j - 1 > p {
                    assert(!doc_lt(before[j - 1], before[p as int]));
                }
                lemma_doc_lt(ge, before[p as int], before[j - 1]);
                lemma_doc_lt(ge, before[j - 1], ge);
            } else if i < p {
                assert(t[i] == before[i] && t[j] == before[j - 1]);
            } else {
                assert(t[i] == before[i - 1] && t[j] == before[j - 1]);
            }
        }
    }
}

/// The settings the docs show, in docs order: advanced ones are left out
/// unless asked for; the rest are ordered by category (`General` when
/// none is set), then by their `order` (999 when none), then by key.
pub fn doc_order(entries: Vec<DocEntry>, show_advanced: bool) -> (r: Vec<DocEntry>)
    ensures
        in_doc_order(r@),
        r@.to_multiset() == entries@.filter(|e: DocEntry| is_shown(e, show_advanced)).to_multiset(),
{
    broadcast use vstd::seq_lib::group_to_multiset_ensures;
    let ghost orig = entries@;
    let ghost pred = |e: DocEntry| is_shown(e, show_advanced);
    let mut rest = entries;
    let mut out: Vec<DocEntry> = Vec::new();
    assert(out@.to_multiset() =~= vstd::multiset::Multiset::<DocEntry>::empty());
    assert(orig.filter(pred).to_multiset() =~= rest@.filter(pred).to_multiset().add(out@.to_multiset()));
    while rest.len() > 0
        invariant
            in_doc_order(out@),
            orig.filter(pred).to_multiset() == rest@.filter(pred).to_multiset().add(out@.to_multiset()),
            pred == (|e: DocEntry| is_shown(e, show_advanced)),
        decreases rest@.len(),
    {
        let ghost r0 = rest@;
        let e = rest.pop().unwrap();
        proof {
            assert(r0 =~= rest@.push(e));
            rest@.lemma_filter_push(e, pred);
        }
        if show_advanced || !e.advanced {
            let ghost o0 = out@;
            proof {
                vstd::seq_lib::to_multiset_build(rest@.filter(pred), e);
            }
            insert_in_order(&mut out, e);
            proof {
                assert(orig.filter(pred).to_multiset() =~= rest@.filter(pred).to_multiset().add(out@.to_multiset()));
            }
        }
    }
    proof {
        assert(rest@.filter(pred) =~= Seq::<DocEntry>::empty()) by {
            reveal(Seq::filter);
        }
        assert(orig.filter(pred).to_multiset() =~= out@.to_multiset());
    }
    out
}

/// The badges of a setting, in this order: Advanced, Requires Restart,
/// Secret, Disabled.
pub open spec fn badges(e: DocEntry) -> Seq<Seq<char>> {
    (if e.advanced { seq!["Advanced"@] } else { Seq::empty() }) + (if e.requires_restart {
        seq!["Requires Restart"@]
    } else {
        Seq::empty()
    }) + (if e.secret { seq!["Secret"@] } else { Seq::empty() }) + (if e.disabled {
        seq!["Disabled"@]
    } else {
        Seq::empty()
    })
}

/// Strings joined with ` • ` between them.
pub open spec fn joined(parts: Seq<Seq<char>>) -> Seq<char>
    decreases parts.len(),
{
    if parts.len() == 0 {
        Seq::empty()
    } else if parts.len() == 1 {
        parts[0]
    } else {
        joined(parts.drop_last()) + " • "@ + parts.last()
    }
}

/// The line of an option of a select setting.
pub open spec fn option_line(o: DocOption) -> Seq<char> {
    "- `"@ + o.value@ + "` - "@ + o.label@ + match o.description {
        Some(d) => " ("@ + d@ + ")"@,
        None => Seq::empty(),
    } + "\n"@
}

/// The lines of the options of a select setting.
pub open spec fn option_lines(opts: Seq<DocOption>) -> Seq<char>
    decreases opts.len(),
{
    if opts.len() == 0 {
        Seq::empty()
    } else {
        option_lines(opts.drop_last()) + option_line(opts.last())
    }
}

/// The rows of a number setting: its range (when both ends are set) and
/// its step; none for another type.
pub open spec fn number_rows(e: DocEntry) -> Seq<char> {
    if e.setting_type == SettingType::Number {
        (match e.range {
            Some((lo, hi)) => "| **Range** | "@ + lo@ + " - "@ + hi@ + " |\n"@,
            None => Seq::empty(),
        }) + (match e.step {
            Some(st) => "| **Step** | "@ + st@ + " |\n"@,
            None => Seq::empty(),
        })
    } else {
        Seq::empty()
    }
}

/// The opening of a setting's section: its key, its badges and its
/// description.
pub open spec fn section_head(e: DocEntry) -> Seq<char> {
    "### `"@ + e.key@ + "`\n\n"@ + (if badges(e).len() > 0 {
        joined(badges(e)) + "\n\n"@
    } else {
        Seq::empty()
    }) + (match e.description {
        Some(d) => d@ + "\n\n"@,
        None => Seq::empty(),
    })
}

/// The property table of a setting.
pub open spec fn section_table(e: DocEntry) -> Seq<char> {
    "| Property | Value |\n"@ + "|----------|-------|\n"@ + "| **Type** | "@ + type_label(e.setting_type)
        + " |\n"@ + "| **Default** | `"@ + e.default_value@ + "` |\n"@ + number_rows(e) + (match e.pattern {
        Some(pt) => "| **Pattern** | `"@ + pt@ + "` |\n"@,
        None => Seq::empty(),
    }) + "\n"@
}

/// The end of a setting's section: its options and the rule.
pub open spec fn section_tail(e: DocEntry) -> Seq<char> {
    (match e.options {
        Some(opts) => "**Options:**\n\n"@ + option_lines(opts@) + "\n"@,
        None => Seq::empty(),
    }) + "---\n\n"@
}

/// The section of one setting in the docs.
pub open spec fn setting_section(e: DocEntry) -> Seq<char> {
    section_head(e) + section_table(e) + section_tail(e)
}

/// The sections of the first `i` settings, each category opened by a
/// heading where it starts.
pub open spec fn grouped_sections(s: Seq<DocEntry>, i: int) -> Seq<char>
    decreases i,
{
    if i <= 0 {
        Seq::empty()
    } else {
        grouped_sections(s, i - 1) + (if i == 1 || category_of(s[i - 2]) != category_of(s[i - 1]) {
            "\n## "@ + capitalized(category_of(s[i - 1])) + "\n\n"@
        } else {
            Seq::empty()
        }) + setting_section(s[i - 1])
    }
}

/// The sections of the first `i` settings, one after the other.
pub open spec fn flat_sections(s: Seq<DocEntry>, i: int) -> Seq<char>
    decreases i,
{
    if i <= 0 {
        Seq::empty()
    } else {
        flat_sections(s, i - 1) + setting_section(s[i - 1])
    }
}

/// The Markdown docs of settings already in docs order: the title (or
/// `Settings Reference`), the description if any, then the settings,
/// grouped under category headings or listed under `## Settings`.
pub open spec fn docs_text(config: DocsConfig, s: Seq<DocEntry>) -> Seq<char> {
    "# "@ + match config.title {
        Some(t) => t@,
        None => "Settings Reference"@,
    } + "\n\n"@ + (match config.description {
        Some(d) => d@ + "\n\n"@,
        None => Seq::empty(),
    }) + if config.group_by_category {
        grouped_sections(s, s.len() as int)
    } else {
        "## Settings\n\n"@ + flat_sections(s, s.len() as int)
    }
}

fn push_text(out: &mut String, piece: &str)
    ensures
        final(out)@ == old(out)@ + piece@,
{
    out.append(piece);
}

fn option_lines_text(opts: &Vec<DocOption>) -> (r: String)
    ensures
        r@ == option_lines(opts@),
{
    let mut out = String::new();
    let n = opts.len();
    let mut i: usize = 0;
    assert(option_lines(opts@.subrange(0, 0)) =~= Seq::<char>::empty());
    while i < n
        invariant
            n == opts@.len(),
            i <= n,
            out@ == option_lines(opts@.subrange(0, i as int)),
        decreases n - i,
    {
        let o = &opts[i];
        let ghost before = out@;
        push_text(&mut out, "- `");
        push_text(&mut out, o.value.as_str());
        push_text(&mut out, "` - ");
        push_text(&mut out, o.label.as_str());
        match &o.description {
            Some(d) => {
                push_text(&mut out, " (");
                push_text(&mut out, d.as_str());
                push_text(&mut out, ")");
            },
            None => {},
        }
        push_text(&mut out, "\n");
        proof {
            assert(opts@.subrange(0, i + 1).drop_last() =~= opts@.subrange(0, i as int));
            assert(out@ =~= before + option_line(opts@[i as int]));
        }
        i += 1;
    }
    assert(opts@.subrange(0, n as int) =~= opts@);
    out
}

fn badge_line(e: &DocEntry) -> (r: String)
    ensures
        r@ == joined(badges(*e)),
{
    let mut names: Vec<&str> = Vec::new();
    if e.advanced {
        names.push("Advanced");
    }
    if e.requires_restart {
        names.push("Requires Restart");
    }
    if e.secret {
        names.push("Secret");
    }
    if e.disabled {
        names.push("Disabled");
    }
    let ghost parts = names@.map_values(|x: &str| x@);
    assert(parts =~= badges(*e));
    let mut out = String::new();
    let n = names.len();
    let mut i: usize = 0;
    while i < n
        invariant
            n == names@.len(),
            i <= n,
            parts == names@.map_values(|x: &str| x@),
            out@ == joined(parts.subrange(0, i as int)),
        decreases n - i,
    {
        let ghost before = out@;
        if i > 0 {
            push_text(&mut out, " • ");
        }
        push_text(&mut out, names[i]);
        proof {
            let p1 = parts.subrange(0, i + 1);
            assert(p1.drop_last() =~= parts.subrange(0, i as int));
            assert(p1.last() == names@[i as int]@);
            if i == 0 {
                assert(out@ =~= p1[0]);
            } else {
                assert(out@ =~= joined(p1.drop_last()) + " • "@ + p1.last());
            }
        }
        i += 1;
    }
    assert(parts.subrange(0, n as int) =~= parts);
    out
}

fn write_section_head(out: &mut String, e: &DocEntry)
    ensures
        final(out)@ == old(out)@ + section_head(*e),
{
    let ghost start = out@;
    push_text(out, "### `");
    push_text(out, e.key.as_str());
    push_text(out, "`\n\n");
    let line = badge_line(e);
    if e.advanced || e.requires_restart || e.secret || e.disabled {
        push_text(out, line.as_str());
        push_text(out, "\n\n");
    }
    match &e.description {
        Some(d) => {
            push_text(out, d.as_str());
            push_text(out, "\n\n");
        },
        None => {},
    }
    assert(out@ =~= start + section_head(*e));
}

fn write_number_rows(out: &mut String, e: &DocEntry)
    ensures
        final(out)@ == old(out)@ + number_rows(*e),
{
    let ghost start = out@;
    let is_number = match e.setting_type {
        SettingType::Number => true,
        _ => false,
    };
    if is_number {
        match &e.range {
            Some((lo, hi)) => {
                push_text(out, "| **Range** | ");
                push_text(out, lo.as_str());
                push_text(out, " - ");
                push_text(out, hi.as_str());
                push_text(out, " |\n");
            },
            None => {},
        }
        match &e.step {
            Some(st) => {
                push_text(out, "| **Step** | ");
                push_text(out, st.as_str());
                push_text(out, " |\n");
            },
            None => {},
        }
    }
    assert(out@ =~= start + number_rows(*e));
}

fn write_section_table(out: &mut String, e: &DocEntry)
    ensures
        final(out)@ == old(out)@ + section_table(*e),
{
    let ghost start = out@;
    push_text(out, "| Property | Value |\n");
    push_text(out, "|----------|-------|\n");
    push_text(out, "| **Type** | ");
    push_text(out, format_type(&e.setting_type));
    push_text(out, " |\n");
    push_text(out, "| **Default** | `");
    push_text(out, e.default_value.as_str());
    push_text(out, "` |\n");
    write_number_rows(out, e);
    match &e.pattern {
        Some(pt) => {
            push_text(out, "| **Pattern** | `");
            push_text(out, pt.as_str());
            push_text(out, "` |\n");
        },
        None => {},
    }
    push_text(out, "\n");
    assert(out@ =~= start + section_table(*e));
}

fn write_section_tail(out: &mut String, e: &DocEntry)
    ensures
        final(out)@ == old(out)@ + section_tail(*e),
{
    let ghost start = out@;
    match &e.options {
        Some(opts) => {
            push_text(out, "**Options:**\n\n");
            let lines = option_lines_text(opts);
            push_text(out, lines.as_str());
            push_text(out, "\n");
        },
        None => {},
    }
    push_text(out, "---\n\n");
    assert(out@ =~= start + section_tail(*e));
}

/// Append the section of one setting.
pub fn format_setting(out: &mut String, e: &DocEntry)
    ensures
        final(out)@ == old(out)@ + setting_section(*e),
{
    let ghost start = out@;
    write_section_head(out, e);
    write_section_table(out, e);
    write_section_tail(out, e);
    assert(out@ =~= start + setting_section(*e));
}

/// Render settings already in docs order as Markdown.
pub fn render_docs(config: &DocsConfig, ordered: &Vec<DocEntry>) -> (r: String)
    ensures
        r@ == docs_text(*config, ordered@),
{
    let mut out = String::new();
    push_text(&mut out, "# ");
    match &config.title {
        Some(t) => push_text(&mut out, t.as_str()),
        None => push_text(&mut out, "Settings Reference"),
    }
    push_text(&mut out, "\n\n");
    match &config.description {
        Some(d) => {
            push_text(&mut out, d.as_str());
            push_text(&mut out, "\n\n");
        },
        None => {},
    }
    let ghost head = out@;
    let n = ordered.len();
    let mut i: usize = 0;
    if config.group_by_category {
        while i < n
            invariant
                n == ordered@.len(),
                i <= n,
                out@ == head + grouped_sections(ordered@, i as int),
            decreases n - i,
        {
            let e = &ordered[i];
            let cat = category_text(e);
            let opens = if i == 0 {
                true
            } else {
                let prev = category_text(&ordered[i - 1]);
                !str_eq(prev.as_str(), cat.as_str())
            };
            let ghost before = out@;
            if opens {
                push_text(&mut out, "\n## ");
                let title = capitalize(cat.as_str());
                push_text(&mut out, title.as_str());
                push_text(&mut out, "\n\n");
            }
            let ghost heading = out@;
            format_setting(&mut out, e);
            proof {
                let s = ordered@;
                let k = i as int + 1;
                assert(opens == (k == 1 || category_of(s[k - 2]) != category_of(s[k - 1])));
                assert(heading == before + (if k == 1 || category_of(s[k - 2]) != category_of(s[k - 1]) {
                    "\n## "@ + capitalized(category_of(s[k - 1])) + "\n\n"@
                } else {
                    Seq::<char>::empty()
                }));
                assert(grouped_sections(s, k) == grouped_sections(s, k - 1) + (if k == 1 || category_of(s[k - 2]) != category_of(s[k - 1]) {
                    "\n## "@ + capitalized(category_of(s[k - 1])) + "\n\n"@
                } else {
                    Seq::<char>::empty()
                }) + setting_section(s[k - 1]));
                assert(out@ =~= head + grouped_sections(s, k));
            }
            i += 1;
        }
    } else {
        push_text(&mut out, "## Settings\n\n");
        while i < n
            invariant
                n == ordered@.len(),
                i <= n,
                out@ == head + "## Settings\n\n"@ + flat_sections(ordered@, i as int),
            decreases n - i,
        {
            let ghost before = out@;
            format_setting(&mut out, &ordered[i]);
            proof {
                assert(flat_sections(ordered@, i + 1) == flat_sections(ordered@, i as int) + setting_section(ordered@[i as int]));
                assert(out@ =~= head + "## Settings\n\n"@ + flat_sections(ordered@, i + 1));
            }
            i += 1;
        }
    }
    out
}

/// Generate Markdown docs for settings: those shown, in docs order,
/// rendered as `render_docs` does.
pub fn generate_docs(entries: Vec<DocEntry>, config: DocsConfig) -> (r: String)
    ensures
        exists|s: Seq<DocEntry>| #[trigger] in_doc_order(s)
            && s.to_multiset() == entries@.filter(|e: DocEntry| is_shown(e, config.show_advanced)).to_multiset()
            && r@ == docs_text(config, s),
{
    let ordered = doc_order(entries, config.show_advanced);
    let r = render_docs(&config, &ordered);
    assert(in_doc_order(ordered@));
    r
}

/// How the docs show a value (JSON text): a string in double quotes, as it
/// reads, anything else as its JSON text.
pub open spec fn shown_value(json: Seq<char>) -> Seq<char> {
    match json_string_content(json) {
        Some(s) => "\""@ + s + "\""@,
        None => json,
    }
}

/// Format a value (JSON text) for the docs.
pub fn format_value(json: &str) -> (r: String)
    ensures
        r@ == shown_value(json@),
{
    match decode_string(json) {
        Some(s) => {
            let mut r = text("\"");
            r.append(s.as_str());
            r.append("\"");
            r
        },
        None => text(json),
    }
}

/// An option of a select setting as the docs show it.
pub open spec fn doc_option_of(o: SettingOption, d: DocOption) -> bool {
    &&& d.value@ == shown_value(o.value@)
    &&& d.label@ == o.label@
    &&& opt_view(d.description) == opt_view(o.description)
}

/// The metadata flag under `key`, false where unset.
pub open spec fn flag_of(m: SettingMetadata, key: Seq<char>) -> bool {
    m.meta_bool_of(key) == Some(true)
}

/// What the docs read of a setting: its key, the `category`, `advanced`,
/// `requires_restart`, `secret`, `disabled` and `description` metadata, its
/// type, default, pattern and options. The `order` metadata and the number
/// range and step are floating point: the caller hands them in, formatted.
pub fn doc_entry(
    key: &str,
    meta: &SettingMetadata,
    order: Option<i32>,
    range: Option<(String, String)>,
    step: Option<String>,
) -> (r: DocEntry)
    ensures
        r.key@ == key@,
        opt_view(r.category) == meta.meta_str_of("category"@),
        r.order == order,
        r.advanced == flag_of(*meta, "advanced"@),
        r.requires_restart == flag_of(*meta, "requires_restart"@),
        r.secret == flag_of(*meta, "secret"@),
        r.disabled == flag_of(*meta, "disabled"@),
        opt_view(r.description) == meta.meta_str_of("description"@),
        r.setting_type == meta.setting_type,
        r.default_value@ == shown_value(meta.default@),
        r.range == range,
        r.step == step,
        opt_view(r.pattern) == opt_view(meta.constraints.text.pattern),
        match meta.constraints.options {
            Some(o) => r.options matches Some(d) && d@.len() == o@.len() && forall|i: int| 0 <= i < o@.len()
                ==> doc_option_of(#[trigger] o@[i], d@[i]),
            None => r.options is None,
        },
{
    let options = match &meta.constraints.options {
        Some(o) => {
            let mut out: Vec<DocOption> = Vec::new();
            let n = o.len();
            let mut i: usize = 0;
            while i < n
                invariant
                    n == o@.len(),
                    i <= n,
                    out@.len() == i,
                    forall|k: int| 0 <= k < i ==> doc_option_of(#[trigger] o@[k], out@[k]),
                decreases n - i,
            {
                let description = match &o[i].description {
                    Some(d) => Some(d.clone()),
                    None => None,
                };
                out.push(DocOption { value: format_value(o[i].value.as_str()), label: o[i].label.clone(), description });
                i += 1;
            }
            Some(out)
        },
        None => None,
    };
    let flag = |k: &str| -> (b: bool)
        ensures
            b == flag_of(*meta, k@),
    {
        match meta.get_meta_bool(k) {
            Some(b) => b,
            None => false,
        }
    };
    let pattern = match &meta.constraints.text.pattern {
        Some(p) => Some(p.clone()),
        None => None,
    };
    DocEntry {
        key: text(key),
        category: meta.get_meta_str("category"),
        order,
        advanced: flag("advanced"),
        requires_restart: flag("requires_restart"),
        secret: flag("secret"),
        disabled: flag("disabled"),
        description: meta.get_meta_str("description"),
        setting_type: meta.setting_type,
        default_value: format_value(meta.default.as_str()),
        range,
        step,
        pattern,
        options,
    }
}

} // verus!
