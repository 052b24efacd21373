//! NuGet: `packages.lock.json`, `project.assets.json` and `packages.config`.
use vstd::prelude::*;
use vstd::slice::slice_subrange;

use crate::entry::{entries, Ecosystem, Entry, LockfileEntry};
use crate::json::{field_views, json_document, parse_json, Json, JsonValue};
use crate::lockfile::pom::{strip_xml_comments, without_blocks};
use crate::lockfile::{
    each, lemma_each_ends, lemma_each_next, push_some, Document, LockfileError, SyntaxCause,
};
use crate::text::{
    chars_of, find, find_char, find_slice, is_space, is_whitespace, lemma_find, lemma_find_char, position_of,
    same_text, starts_with_slice, string_of, trim_start, trim_text_start,
};

verus! {

// ---------------------------------------------------------------------------
// packages.lock.json and project.assets.json
// ---------------------------------------------------------------------------

/// The package `id` under a framework of a `packages.lock.json`, at its resolved version. A
/// project reference is none.
pub open spec fn locked_package(id: Seq<char>, value: Json) -> Option<Entry> {
    match value.field_text("resolved"@) {
        Some(version) => if value.field_text("type"@) == Some("Project"@) {
            None
        } else {
            Some(Entry { ecosystem: Ecosystem::Nuget, name: id, version })
        },
        None => None,
    }
}

/// The package at a key `Id/Version` under a target of a `project.assets.json`. A project
/// reference is none.
pub open spec fn resolved_package(key: Seq<char>, value: Json) -> Option<Entry> {
    match find_char(key, '/') {
        Some(i) => if value.field_text("type"@) == Some("project"@) {
            None
        } else {
            Some(Entry { ecosystem: Ecosystem::Nuget, name: key.take(i), version: key.skip(i + 1) })
        },
        None => None,
    }
}

/// `locked_package` as a rule.
pub open spec fn locked_rule() -> spec_fn((Seq<char>, Json)) -> Option<Entry> {
    |f: (Seq<char>, Json)| locked_package(f.0, f.1)
}

/// `resolved_package` as a rule.
pub open spec fn resolved_rule() -> spec_fn((Seq<char>, Json)) -> Option<Entry> {
    |f: (Seq<char>, Json)| resolved_package(f.0, f.1)
}

/// The packages that `rule` reads under the first `n` frameworks.
pub open spec fn under_frameworks(
    frameworks: Seq<(Seq<char>, Json)>,
    rule: spec_fn((Seq<char>, Json)) -> Option<Entry>,
    n: nat,
) -> Seq<Entry>
    decreases n,
{
    if n == 0 || n > frameworks.len() {
        Seq::empty()
    } else {
        under_frameworks(frameworks, rule, (n - 1) as nat) + (match frameworks[n - 1].1.fields() {
            Some(fields) => each(fields, rule),
            None => Seq::empty(),
        })
    }
}

/// The packages of a `packages.lock.json`, framework by framework.
pub open spec fn nuget_lock_entries(doc: Json) -> Seq<Entry> {
    match doc.field_fields("dependencies"@) {
        Some(frameworks) => under_frameworks(frameworks, locked_rule(), frameworks.len()),
        None => Seq::empty(),
    }
}

/// The packages of a `project.assets.json`, target by target.
pub open spec fn nuget_assets_entries(doc: Json) -> Seq<Entry> {
    match doc.field_fields("targets"@) {
        Some(frameworks) => under_frameworks(frameworks, resolved_rule(), frameworks.len()),
        None => Seq::empty(),
    }
}

/// Whether the field `type` is the text `t`.
fn has_type(value: &JsonValue, t: &str) -> (r: bool)
    ensures
        r == (value@.field_text("type"@) == Some(t@)),
{
    match value.str_at("type") {
        Some(found) => same_text(found.as_str(), t),
        None => false,
    }
}

/// Reads one package of a `packages.lock.json`.
fn read_locked(id: &String, value: &JsonValue) -> (r: Option<LockfileEntry>)
    ensures
        match r {
            Some(e) => locked_package(id@, value@) == Some(e@),
            None => locked_package(id@, value@) is None,
        },
{
    match value.str_at("resolved") {
        Some(version) => {
            if has_type(value, "Project") {
                None
            } else {
                Some(
                    LockfileEntry {
                        ecosystem: Ecosystem::Nuget,
                        name: id.clone(),
                        version: version.clone(),
                    },
                )
            }
        },
        None => None,
    }
}

/// Reads one package of a `project.assets.json`.
fn read_resolved(key: &String, value: &JsonValue) -> (r: Option<LockfileEntry>)
    ensures
        match r {
            Some(e) => resolved_package(key@, value@) == Some(e@),
            None => resolved_package(key@, value@) is None,
        },
{
    let chars: Vec<char> = chars_of(key.as_str());
    match position_of(chars.as_slice(), '/') {
        Some(i) => {
            if has_type(value, "project") {
                return None;
            }
            let name: &[char] = slice_subrange(chars.as_slice(), 0, i);
            let version: &[char] = slice_subrange(chars.as_slice(), i + 1, chars.len());
            assert(name@ =~= key@.take(i as int));
            assert(version@ =~= key@.skip(i + 1));
            Some(
                LockfileEntry {
                    ecosystem: Ecosystem::Nuget,
                    name: string_of(name),
                    version: string_of(version),
                },
            )
        },
        None => None,
    }
}

/// Which of the two formats a list of packages comes from.
#[derive(Clone, Copy)]
enum Format {
    Lock,
    Assets,
}

/// The rule of a format.
spec fn rule_of(format: Format) -> spec_fn((Seq<char>, Json)) -> Option<Entry> {
    match format {
        Format::Lock => locked_rule(),
        Format::Assets => resolved_rule(),
    }
}

/// Appends the packages under one framework.
fn read_framework(fields: &Vec<(String, JsonValue)>, format: Format, out: &mut Vec<LockfileEntry>)
    ensures
        entries(final(out)@) == entries(old(out)@) + each(field_views(fields@), rule_of(format)),
{
    let ghost start = entries(out@);
    let ghost all = field_views(fields@);
    let ghost rule = rule_of(format);
    proof {
        lemma_each_ends(all, rule);
    }
    let mut i: usize = 0;
    assert(start + each(all.take(0), rule) =~= start);
    while i < fields.len()
        invariant
            i <= fields.len(),
            all == field_views(fields@),
            rule == rule_of(format),
            entries(out@) == start + each(all.take(i as int), rule),
        decreases fields.len() - i,
    {
        proof {
            lemma_each_next(all, rule, i as int);
        }
        let e: Option<LockfileEntry> = match format {
            Format::Lock => read_locked(&fields[i].0, &fields[i].1),
            Format::Assets => read_resolved(&fields[i].0, &fields[i].1),
        };
        push_some(out, e);
        i += 1;
        assert(entries(out@) =~= start + each(all.take(i as int), rule));
    }
}

/// The packages under all frameworks.
fn read_frameworks(frameworks: &Vec<(String, JsonValue)>, format: Format) -> (r: Vec<LockfileEntry>)
    ensures
        entries(r@) == under_frameworks(field_views(frameworks@), rule_of(format), frameworks@.len()),
{
    let mut out: Vec<LockfileEntry> = Vec::new();
    let ghost all = field_views(frameworks@);
    let ghost rule = rule_of(format);
    let mut i: usize = 0;
    assert(entries(out@) =~= Seq::empty());
    while i < frameworks.len()
        invariant
            i <= frameworks.len(),
            all == field_views(frameworks@),
            rule == rule_of(format),
            entries(out@) == under_frameworks(all, rule, i as nat),
        decreases frameworks.len() - i,
    {
        let ghost before = entries(out@);
        match frameworks[i].1.as_object() {
            Some(fields) => read_framework(fields, format, &mut out),
            None => {
                assert(before + Seq::empty() =~= before);
            },
        }
        i += 1;
    }
    out
}

/// The packages of a `packages.lock.json` that was read.
pub fn entries_of_nuget_lock(doc: &JsonValue) -> (r: Vec<LockfileEntry>)
    ensures
        entries(r@) == nuget_lock_entries(doc@),
{
    match doc.object_at("dependencies") {
        Some(frameworks) => read_frameworks(frameworks, Format::Lock),
        None => {
            let out: Vec<LockfileEntry> = Vec::new();
            assert(entries(out@) =~= Seq::empty());
            out
        },
    }
}

/// The packages of a `project.assets.json` that was read.
pub fn entries_of_nuget_assets(doc: &JsonValue) -> (r: Vec<LockfileEntry>)
    ensures
        entries(r@) == nuget_assets_entries(doc@),
{
    match doc.object_at("targets") {
        Some(frameworks) => read_frameworks(frameworks, Format::Assets),
        None => {
            let out: Vec<LockfileEntry> = Vec::new();
            assert(entries(out@) =~= Seq::empty());
            out
        },
    }
}

/// Parse a `packages.lock.json`.
pub fn parse_nuget_lock(content: &str) -> (r: Result<Vec<LockfileEntry>, LockfileError>)
    ensures
        match r {
            Ok(v) => json_document(content@) matches Some(doc) && entries(v@) == nuget_lock_entries(doc),
            Err(e) => json_document(content@) is None && e matches LockfileError::Syntax(
                Document::NugetLock,
                SyntaxCause::Json(_),
            ),
        },
{
    match parse_json(content) {
        Ok(doc) => Ok(entries_of_nuget_lock(&doc)),
        Err(e) => Err(LockfileError::Syntax(Document::NugetLock, SyntaxCause::Json(e))),
    }
}

/// Parse a `project.assets.json`.
pub fn parse_nuget_assets(content: &str) -> (r: Result<Vec<LockfileEntry>, LockfileError>)
    ensures
        match r {
            Ok(v) => json_document(content@) matches Some(doc) && entries(v@) == nuget_assets_entries(doc),
            Err(e) => json_document(content@) is None && e matches LockfileError::Syntax(
                Document::NugetAssets,
                SyntaxCause::Json(_),
            ),
        },
{
    match parse_json(content) {
        Ok(doc) => Ok(entries_of_nuget_assets(&doc)),
        Err(e) => Err(LockfileError::Syntax(Document::NugetAssets, SyntaxCause::Json(e))),
    }
}

// ---------------------------------------------------------------------------
// packages.config
// ---------------------------------------------------------------------------

/// What follows an equals sign at the front of `s`, with white space allowed on both sides of it.
pub open spec fn assigned(s: Seq<char>) -> Option<Seq<char>> {
    let at = trim_start(s);
    if at.len() > 0 && at[0] == '=' {
        Some(trim_start(at.skip(1)))
    } else {
        None
    }
}

/// `s` begins with a quote.
pub open spec fn is_quoted(s: Seq<char>) -> bool {
    s.len() > 0 && (s[0] == '"' || s[0] == '\'')
}

/// The value of the attribute `name` in the attributes `s` of a tag: what stands between the
/// quotes after the first `name` that follows white space and has an equals sign and a quote
/// behind it.
pub open spec fn attribute(s: Seq<char>, name: Seq<char>) -> Option<Seq<char>>
    decreases s.len(),
{
    if s.len() == 0 {
        None
    } else {
        let value = if is_space(s[0]) && name.is_prefix_of(s.skip(1)) {
            assigned(s.skip(1).skip(name.len() as int))
        } else {
            None
        };
        match value {
            Some(v) => if is_quoted(v) {
                match find_char(v.skip(1), v[0]) {
                    Some(i) => Some(v.skip(1).take(i)),
                    None => None,
                }
            } else {
                attribute(s.skip(1), name)
            },
            None => attribute(s.skip(1), name),
        }
    }
}

/// The package in the attributes of a `<package>` tag.
pub open spec fn config_package(attributes: Seq<char>) -> Option<Entry> {
    match (attribute(attributes, "id"@), attribute(attributes, "version"@)) {
        (Some(name), Some(version)) => Some(Entry { ecosystem: Ecosystem::Nuget, name, version }),
        _ => None,
    }
}

/// The packages in the `<package>` tags of `s`, in order. A longer tag name, such as that of the
/// root element, has no white space after `<package` and gives none.
pub open spec fn config_packages(s: Seq<char>) -> Seq<Entry>
    decreases s.len(),
    via config_packages_decreases
{
    match find(s, "<package"@) {
        Some(i) => {
            let after = s.skip(i + "<package"@.len());
            match find_char(after, '>') {
                Some(j) => {
                    let rest = config_packages(after.skip(j + 1));
                    match config_package(after.take(j)) {
                        Some(e) => if is_space(after[0]) {
                            seq![e] + rest
                        } else {
                            rest
                        },
                        None => rest,
                    }
                },
                None => Seq::empty(),
            }
        },
        None => Seq::empty(),
    }
}

#[via_fn]
proof fn config_packages_decreases(s: Seq<char>) {
    lemma_find(s, "<package"@);
    if find(s, "<package"@) is Some {
        lemma_find_char(s.skip(find(s, "<package"@).unwrap() + "<package"@.len()), '>');
    }
}

/// The packages of a `packages.config`: those outside comments.
pub open spec fn packages_config_entries(content: Seq<char>) -> Seq<Entry> {
    config_packages(without_blocks(content, "<!--"@, "-->"@))
}

/// What follows an equals sign.
fn read_assigned<'a>(s: &'a [char]) -> (r: Option<&'a [char]>)
    ensures
        match r {
            Some(v) => assigned(s@) == Some(v@),
            None => assigned(s@) is None,
        },
{
    let at: &'a [char] = trim_text_start(s);
    if at.len() > 0 && at[0] == '=' {
        let behind: &'a [char] = slice_subrange(at, 1, at.len());
        assert(behind@ =~= at@.skip(1));
        Some(trim_text_start(behind))
    } else {
        None
    }
}

/// The value of an attribute.
fn read_attribute<'a>(s: &'a [char], name: &str) -> (r: Option<&'a [char]>)
    ensures
        match r {
            Some(v) => attribute(s@, name@) == Some(v@),
            None => attribute(s@, name@) is None,
        },
{
    let key: Vec<char> = chars_of(name);
    let mut rest: &'a [char] = s;
    while rest.len() > 0
        invariant
            key@ == name@,
            attribute(s@, name@) == attribute(rest@, name@),
        decreases rest@.len(),
    {
        let next: &'a [char] = slice_subrange(rest, 1, rest.len());
        assert(next@ =~= rest@.skip(1));
        if is_whitespace(rest[0]) && starts_with_slice(next, key.as_slice()) {
            let behind: &'a [char] = slice_subrange(next, key.len(), next.len());
            assert(behind@ =~= next@.skip(name@.len() as int));
            match read_assigned(behind) {
                Some(quoted) => {
                    if quoted.len() > 0 && (quoted[0] == '"' || quoted[0] == '\'') {
                        let value: &'a [char] = slice_subrange(quoted, 1, quoted.len());
                        assert(value@ =~= quoted@.skip(1));
                        match position_of(value, quoted[0]) {
                            Some(i) => {
                                let text: &'a [char] = slice_subrange(value, 0, i);
                                assert(text@ =~= value@.take(i as int));
                                return Some(text);
                            },
                            None => {
                                return None;
                            },
                        }
                    }
                },
                None => {},
            }
        }
        rest = next;
    }
    None
}

/// Parse a `packages.config`.
pub fn parse_packages_config(content: &str) -> (r: Result<Vec<LockfileEntry>, LockfileError>)
    ensures
        r matches Ok(v) && entries(v@) == packages_config_entries(content@),
{
    let stripped: Vec<char> = chars_of(strip_xml_comments(content).as_str());
    let open: Vec<char> = chars_of("<package");
    proof {
        reveal_strlit("<package");
    }
    let mut out: Vec<LockfileEntry> = Vec::new();
    let mut rest: &[char] = stripped.as_slice();
    let ghost all = config_packages(stripped@);
    assert(entries(out@) + config_packages(rest@) =~= all);
    loop
        invariant
            open@ == "<package"@,
            open@.len() > 0,
            entries(out@) + config_packages(rest@) == all,
            all == packages_config_entries(content@),
        decreases rest@.len(),
    {
        let ghost before = entries(out@);
        match find_slice(rest, open.as_slice()) {
            Some(i) => {
                assert(i + open@.len() <= rest.len());
                let after: &[char] = slice_subrange(rest, i + open.len(), rest.len());
                assert(after@ =~= rest@.skip(i + open@.len()));
                match position_of(after, '>') {
                    Some(j) => {
                        assert(j < after.len());
                        let attributes: &[char] = slice_subrange(after, 0, j);
                        assert(attributes@ =~= after@.take(j as int));
                        let next: &[char] = slice_subrange(after, j + 1, after.len());
                        assert(next@ =~= after@.skip(j + 1));
                        let mut e: Option<LockfileEntry> = None;
                        if is_whitespace(after[0]) {
                            match (read_attribute(attributes, "id"), read_attribute(attributes, "version")) {
                                (Some(name), Some(version)) => {
                                    e = Some(
                                        LockfileEntry {
                                            ecosystem: Ecosystem::Nuget,
                                            name: string_of(name),
                                            version: string_of(version),
                                        },
                                    );
                                },
                                _ => {},
                            }
                        }
                        push_some(&mut out, e);
                        assert(entries(out@) + config_packages(next@) =~= before + config_packages(rest@));
                        rest = next;
                    },
                    None => {
                        assert(before + Seq::empty() =~= before);
                        return Ok(out);
                    },
                }
            },
            None => {
                assert(before + Seq::empty() =~= before);
                return Ok(out);
            },
        }
    }
}

} // verus!
