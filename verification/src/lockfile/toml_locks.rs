//! Lockfiles in TOML: `poetry.lock`, `uv.lock` and `pdm.lock` for PyPI, and `Cargo.lock`.
use vstd::prelude::*;

use crate::entry::{entries, Ecosystem, Entry, LockfileEntry};
use crate::lockfile::pypi::{make_pypi_entry, pypi_entry};
use crate::lockfile::{
    each, lemma_each_ends, lemma_each_next, push_some, Document, LockfileError, SyntaxCause,
};
use crate::text::{chars_of, same_text, starts_with};
use crate::toml_file::{parse_toml, toml_document, toml_views, Toml, TomlValue};

verus! {

/// A source that is recognised as a registry: one with a type is where the type is empty or
/// `legacy`, a private index of the same kind; one without a type is where it names its `registry`.
pub open spec fn is_registry_source(source: Toml) -> bool {
    match source.field_text("type"@) {
        Some(t) => t == ""@ || t == "legacy"@,
        None => source.field("registry"@) is Some,
    }
}

/// A package that comes from a registry: it gives no source, or one that is recognised as one.
pub open spec fn from_registry(pkg: Toml) -> bool {
    match pkg.field("source"@) {
        Some(source) => is_registry_source(source),
        None => true,
    }
}

/// The package in one `[[package]]` table of a Python lockfile. What comes from a source that is
/// not recognised as a registry is none.
pub open spec fn python_package(pkg: Toml) -> Option<Entry> {
    match (pkg.field_text("name"@), pkg.field_text("version"@)) {
        (Some(name), Some(version)) => if from_registry(pkg) {
            pypi_entry(name, version)
        } else {
            None
        },
        _ => None,
    }
}

/// `python_package` as a rule.
pub open spec fn python_rule() -> spec_fn(Toml) -> Option<Entry> {
    |pkg: Toml| python_package(pkg)
}

/// The packages of a Python lockfile in TOML.
pub open spec fn python_lock_entries(doc: Toml) -> Seq<Entry> {
    match doc.field_items("package"@) {
        Some(packages) => each(packages, python_rule()),
        None => Seq::empty(),
    }
}

/// The package in one `[[package]]` table of a `Cargo.lock`. What does not come from a registry
/// (workspace crates, git and path sources) is none.
pub open spec fn cargo_package(pkg: Toml) -> Option<Entry> {
    match (pkg.field_text("name"@), pkg.field_text("version"@), pkg.field_text("source"@)) {
        (Some(name), Some(version), Some(source)) => if "registry+"@.is_prefix_of(source)
            || "sparse+"@.is_prefix_of(source) {
            Some(Entry { ecosystem: Ecosystem::Cargo, name, version })
        } else {
            None
        },
        _ => None,
    }
}

/// `cargo_package` as a rule.
pub open spec fn cargo_rule() -> spec_fn(Toml) -> Option<Entry> {
    |pkg: Toml| cargo_package(pkg)
}

/// The packages of a `Cargo.lock`.
pub open spec fn cargo_entries(doc: Toml) -> Seq<Entry> {
    match doc.field_items("package"@) {
        Some(packages) => each(packages, cargo_rule()),
        None => Seq::empty(),
    }
}

/// Reads one package of a Python lockfile.
fn read_python_package(pkg: &TomlValue) -> (r: Option<LockfileEntry>)
    ensures
        match r {
            Some(e) => python_package(pkg@) == Some(e@),
            None => python_package(pkg@) is None,
        },
{
    match (pkg.str_at("name"), pkg.str_at("version")) {
        (Some(name), Some(version)) => {
            let registry: bool = match pkg.get("source") {
                Some(source) => match source.str_at("type") {
                    Some(t) => same_text(t.as_str(), "") || same_text(t.as_str(), "legacy"),
                    None => source.get("registry").is_some(),
                },
                None => true,
            };
            if registry {
                make_pypi_entry(name.as_str(), version.clone())
            } else {
                None
            }
        },
        _ => None,
    }
}

/// Reads one package of a `Cargo.lock`.
fn read_cargo_package(pkg: &TomlValue) -> (r: Option<LockfileEntry>)
    ensures
        match r {
            Some(e) => cargo_package(pkg@) == Some(e@),
            None => cargo_package(pkg@) is None,
        },
{
    match (pkg.str_at("name"), pkg.str_at("version"), pkg.str_at("source")) {
        (Some(name), Some(version), Some(source)) => {
            let source: Vec<char> = chars_of(source.as_str());
            if starts_with(source.as_slice(), "registry+") || starts_with(source.as_slice(), "sparse+") {
                Some(
                    LockfileEntry {
                        ecosystem: Ecosystem::Cargo,
                        name: name.clone(),
                        version: version.clone(),
                    },
                )
            } else {
                None
            }
        },
        _ => None,
    }
}

/// The packages of a Python lockfile that was read.
pub fn entries_of_python_lock(doc: &TomlValue) -> (r: Vec<LockfileEntry>)
    ensures
        entries(r@) == python_lock_entries(doc@),
{
    let mut out: Vec<LockfileEntry> = Vec::new();
    assert(entries(out@) =~= Seq::empty());
    match doc.array_at("package") {
        Some(packages) => {
            let ghost all = toml_views(packages@);
            proof {
                lemma_each_ends(all, python_rule());
            }
            let mut i: usize = 0;
            while i < packages.len()
                invariant
                    i <= packages.len(),
                    all == toml_views(packages@),
                    entries(out@) == each(all.take(i as int), python_rule()),
                decreases packages.len() - i,
            {
                proof {
                    lemma_each_next(all, python_rule(), i as int);
                }
                let e: Option<LockfileEntry> = read_python_package(&packages[i]);
                push_some(&mut out, e);
                i += 1;
            }
        },
        None => {},
    }
    out
}

/// The packages of a `Cargo.lock` that was read.
pub fn entries_of_cargo(doc: &TomlValue) -> (r: Vec<LockfileEntry>)
    ensures
        entries(r@) == cargo_entries(doc@),
{
    let mut out: Vec<LockfileEntry> = Vec::new();
    assert(entries(out@) =~= Seq::empty());
    match doc.array_at("package") {
        Some(packages) => {
            let ghost all = toml_views(packages@);
            proof {
                lemma_each_ends(all, cargo_rule());
            }
            let mut i: usize = 0;
            while i < packages.len()
                invariant
                    i <= packages.len(),
                    all == toml_views(packages@),
                    entries(out@) == each(all.take(i as int), cargo_rule()),
                decreases packages.len() - i,
            {
                proof {
                    lemma_each_next(all, cargo_rule(), i as int);
                }
                let e: Option<LockfileEntry> = read_cargo_package(&packages[i]);
                push_some(&mut out, e);
                i += 1;
            }
        },
        None => {},
    }
    out
}

/// Common shape of poetry.lock, uv.lock and pdm.lock: `[[package]]` tables with a name and a
/// version. A package whose source is not recognised as a registry is skipped.
pub fn parse_toml_package_array(content: &str) -> (r: Result<Vec<LockfileEntry>, LockfileError>)
    ensures
        match r {
            Ok(v) => toml_document(content@) matches Some(doc) && entries(v@) == python_lock_entries(doc),
            Err(e) => toml_document(content@) is None && e matches LockfileError::Syntax(
                Document::TomlLock,
                SyntaxCause::Toml(_),
            ),
        },
{
    match parse_toml(content) {
        Ok(doc) => Ok(entries_of_python_lock(&doc)),
        Err(e) => Err(LockfileError::Syntax(Document::TomlLock, SyntaxCause::Toml(e))),
    }
}

/// Parse a `poetry.lock`.
pub fn parse_poetry_lock(content: &str) -> (r: Result<Vec<LockfileEntry>, LockfileError>)
    ensures
        match r {
            Ok(v) => toml_document(content@) matches Some(doc) && entries(v@) == python_lock_entries(doc),
            Err(e) => toml_document(content@) is None && e matches LockfileError::Syntax(
                Document::TomlLock,
                SyntaxCause::Toml(_),
            ),
        },
{
    parse_toml_package_array(content)
}

/// Parse a `uv.lock`.
pub fn parse_uv_lock(content: &str) -> (r: Result<Vec<LockfileEntry>, LockfileError>)
    ensures
        match r {
            Ok(v) => toml_document(content@) matches Some(doc) && entries(v@) == python_lock_entries(doc),
            Err(e) => toml_document(content@) is None && e matches LockfileError::Syntax(
                Document::TomlLock,
                SyntaxCause::Toml(_),
            ),
        },
{
    parse_toml_package_array(content)
}

/// Parse a `pdm.lock`.
pub fn parse_pdm_lock(content: &str) -> (r: Result<Vec<LockfileEntry>, LockfileError>)
    ensures
        match r {
            Ok(v) => toml_document(content@) matches Some(doc) && entries(v@) == python_lock_entries(doc),
            Err(e) => toml_document(content@) is None && e matches LockfileError::Syntax(
                Document::TomlLock,
                SyntaxCause::Toml(_),
            ),
        },
{
    parse_toml_package_array(content)
}

/// Parse a `Cargo.lock`. Only packages from a registry are gated: git, path and workspace crates
/// have no source that the service can consult.
pub fn parse_cargo_lock(content: &str) -> (r: Result<Vec<LockfileEntry>, LockfileError>)
    ensures
        match r {
            Ok(v) => toml_document(content@) matches Some(doc) && entries(v@) == cargo_entries(doc),
            Err(e) => toml_document(content@) is None && e matches LockfileError::Syntax(
                Document::CargoLock,
                SyntaxCause::Toml(_),
            ),
        },
{
    match parse_toml(content) {
        Ok(doc) => Ok(entries_of_cargo(&doc)),
        Err(e) => Err(LockfileError::Syntax(Document::CargoLock, SyntaxCause::Toml(e))),
    }
}

} // verus!
