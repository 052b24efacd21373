//! Parse lockfiles into a flat (ecosystem, name, version) list that the endpoint can
//! consume.
use vstd::prelude::*;
use vstd::string::StringExecFns;
use vstd::utf8::is_ascii_chars;

use crate::client::EXIT_CONFIG;
use crate::entry::{
    entries, insert_sorted, law_sorted_list_is_fixed_by_its_entries, strictly_sorted, Ecosystem, Entry,
    LockfileEntry,
};
use crate::json::json_document;
use crate::lockfile::composer::{composer_entries, parse_composer_lock};
use crate::lockfile::gemfile::{gemfile_entries, parse_gemfile_lock};
use crate::lockfile::npm::{npm_entries, parse_npm};
use crate::lockfile::nuget::{
    nuget_assets_entries, nuget_lock_entries, packages_config_entries, parse_nuget_assets, parse_nuget_lock,
    parse_packages_config,
};
use crate::lockfile::pnpm::{parse_pnpm, pnpm_entries};
use crate::lockfile::pom::{parse_pom_xml, pom_entries};
use crate::lockfile::pypi::{parse_pipfile_lock, pipfile_entries};
use crate::lockfile::requirements::{parse_requirements_txt, requirements_entries};
use crate::lockfile::toml_locks::{
    cargo_entries, parse_cargo_lock, parse_pdm_lock, parse_poetry_lock, parse_uv_lock, python_lock_entries,
};
use crate::lockfile::yarn::{parse_yarn_v1, yarn_entries};
use crate::text::{ascii_lower, chars_of, contains_char, contains_text, equals, find, starts_with};
use crate::toml_file::toml_document;
use crate::yaml::yaml_document;

pub mod composer;
pub mod config_laws;
pub mod document_laws;
pub mod gemfile;
pub mod gemfile_laws;
pub mod laws;
pub mod npm;
pub mod nuget;
pub mod pnpm;
pub mod pom;
pub mod pom_laws;
pub mod pypi;
pub mod registry_laws;
pub mod requirements;
pub mod requirements_laws;
pub mod toml_locks;
pub mod yarn;
pub mod yarn_laws;

verus! {

/// A document that one of the outside parsers refused.
#[derive(Debug, Clone, Copy, PartialEq, Eq, Structural)]
pub enum Document {
    PackageLock,
    PnpmLock,
    PipfileLock,
    TomlLock,
    CargoLock,
    NugetLock,
    NugetAssets,
    ComposerLock,
}

/// Why a text is not a document of its format.
#[derive(Debug)]
pub enum SyntaxCause {
    Json(serde_json::Error),
    Yaml(serde_yaml::Error),
    Toml(toml::de::Error),
}

/// Why a lockfile cannot be parsed.
#[derive(Debug)]
pub enum LockfileError {
    /// The file is a `yarn.lock` of Yarn Berry.
    YarnBerry,
    /// No supported lockfile has this (lower-cased) name.
    UnknownName(String),
    /// The content is not in the syntax of its format.
    Syntax(Document, SyntaxCause),
}

/// The hint that comes with a lockfile of Yarn Berry.
pub const YARN_BERRY_HINT: &'static str =
    "yarn.lock appears to be Yarn Berry (v2+). Yarn Berry isn't yet supported by the lockfile parser. Workaround: use a Yarn Classic lockfile, switch to npm/pnpm, or pass package specs explicitly with `pkgradar gate <specs>`.";

/// The names of lockfiles that a message about an unknown name lists.
pub const SUPPORTED_NAMES: &'static str =
    "package-lock.json, npm-shrinkwrap.json, pnpm-lock.yaml, yarn.lock, requirements.txt, Pipfile.lock, poetry.lock, uv.lock, pdm.lock, Gemfile.lock, Cargo.lock, pom.xml, packages.lock.json, packages.config, project.assets.json, composer.lock.";

impl Document {
    /// What was being done when the document was refused.
    pub open spec fn activity(self) -> Seq<char> {
        match self {
            Document::PackageLock => "parsing package-lock.json"@,
            Document::PnpmLock => "parsing pnpm-lock.yaml"@,
            Document::PipfileLock => "parsing Pipfile.lock"@,
            Document::TomlLock => "parsing TOML lockfile"@,
            Document::CargoLock => "parsing Cargo.lock"@,
            Document::NugetLock => "parsing packages.lock.json"@,
            Document::NugetAssets => "parsing project.assets.json"@,
            Document::ComposerLock => "parsing composer.lock"@,
        }
    }

    /// What was being done when the document was refused.
    pub fn context(self) -> (r: &'static str)
        ensures
            r@ == self.activity(),
    {
        match self {
            Document::PackageLock => "parsing package-lock.json",
            Document::PnpmLock => "parsing pnpm-lock.yaml",
            Document::PipfileLock => "parsing Pipfile.lock",
            Document::TomlLock => "parsing TOML lockfile",
            Document::CargoLock => "parsing Cargo.lock",
            Document::NugetLock => "parsing packages.lock.json",
            Document::NugetAssets => "parsing project.assets.json",
            Document::ComposerLock => "parsing composer.lock",
        }
    }
}

impl LockfileError {
    /// The message for the user, without the outside parser's own words.
    pub open spec fn text(self) -> Seq<char> {
        match self {
            LockfileError::YarnBerry => YARN_BERRY_HINT@,
            LockfileError::UnknownName(name) => "unrecognised lockfile name `"@ + name@ + "`. Supported: "@
                + SUPPORTED_NAMES@,
            LockfileError::Syntax(document, _) => document.activity(),
        }
    }

    /// The message for the user, without the outside parser's own words.
    pub fn message(&self) -> (r: String)
        ensures
            r@ == self.text(),
    {
        match self {
            LockfileError::YarnBerry => YARN_BERRY_HINT.to_owned(),
            LockfileError::UnknownName(name) => {
                let mut r: String = "unrecognised lockfile name `".to_owned();
                r.append(name.as_str());
                r.append("`. Supported: ");
                r.append(SUPPORTED_NAMES);
                r
            },
            LockfileError::Syntax(document, _) => document.context().to_owned(),
        }
    }

    /// The exit code of a run that ends with the error.
    pub fn exit_code(&self) -> (r: i32)
        ensures
            r == EXIT_CONFIG,
    {
        EXIT_CONFIG
    }
}

// ---------------------------------------------------------------------------
// Lists of entries
// ---------------------------------------------------------------------------

/// The entries that `rule` reads in the items of a list, in order; items in which it reads none
/// are left out.
pub open spec fn each<T>(items: Seq<T>, rule: spec_fn(T) -> Option<Entry>) -> Seq<Entry>
    decreases items.len(),
{
    if items.len() == 0 {
        Seq::empty()
    } else {
        match rule(items.last()) {
            Some(e) => each(items.drop_last(), rule).push(e),
            None => each(items.drop_last(), rule),
        }
    }
}

/// One more item.
pub proof fn lemma_each_next<T>(items: Seq<T>, rule: spec_fn(T) -> Option<Entry>, i: int)
    requires
        0 <= i < items.len(),
    ensures
        each(items.take(i + 1), rule) == match rule(items[i]) {
            Some(e) => each(items.take(i), rule).push(e),
            None => each(items.take(i), rule),
        },
{
    assert(items.take(i + 1).drop_last() =~= items.take(i));
    assert(items.take(i + 1).last() == items[i]);
}

/// Before the first item there is nothing, after the last there is all.
pub proof fn lemma_each_ends<T>(items: Seq<T>, rule: spec_fn(T) -> Option<Entry>)
    ensures
        each(items.take(0), rule) == Seq::<Entry>::empty(),
        each(items.take(items.len() as int), rule) == each(items, rule),
{
    assert(items.take(0) =~= Seq::empty());
    assert(items.take(items.len() as int) =~= items);
}

/// Every entry of the list is what `rule` reads in some item.
pub proof fn lemma_each_from<T>(items: Seq<T>, rule: spec_fn(T) -> Option<Entry>, e: Entry)
    requires
        each(items, rule).contains(e),
    ensures
        exists|i: int| 0 <= i < items.len() && rule(#[trigger] items[i]) == Some(e),
    decreases items.len(),
{
    let all = each(items, rule);
    let k = choose|k: int| 0 <= k < all.len() && all[k] == e;
    let front = each(items.drop_last(), rule);
    if rule(items.last()) is Some && k == all.len() - 1 {
        assert(rule(items[items.len() - 1]) == Some(e));
    } else {
        assert(front[k] == e);
        lemma_each_from(items.drop_last(), rule, e);
        let i = choose|i: int|
            0 <= i < items.drop_last().len() && rule(#[trigger] items.drop_last()[i]) == Some(e);
        assert(rule(items[i]) == Some(e));
    }
}

/// Appends `e` where there is one.
pub fn push_some(out: &mut Vec<LockfileEntry>, e: Option<LockfileEntry>)
    ensures
        entries(final(out)@) == match e {
            Some(x) => entries(old(out)@).push(x@),
            None => entries(old(out)@),
        },
{
    match e {
        Some(x) => {
            out.push(x);
            assert(entries(out@) =~= entries(old(out)@).push(x@));
        },
        None => {},
    }
}

// ---------------------------------------------------------------------------
// Which format a file has
// ---------------------------------------------------------------------------

/// The formats of lockfiles.
#[derive(Debug, Clone, Copy, PartialEq, Eq, Structural)]
pub enum LockfileKind {
    Npm,
    Pnpm,
    YarnV1,
    PyRequirements,
    PyPipfileLock,
    PyPoetryLock,
    PyUvLock,
    PyPdmLock,
    Gemfile,
    Cargo,
    Pom,
    NugetLock,
    NugetConfig,
    NugetAssets,
    Composer,
}

/// The format of the lockfile with a (lower-cased) name.
pub open spec fn kind_of(name: Seq<char>) -> Option<LockfileKind> {
    if name == "package-lock.json"@ || name == "npm-shrinkwrap.json"@ {
        Some(LockfileKind::Npm)
    } else if name == "pnpm-lock.yaml"@ || name == "pnpm-lock.yml"@ {
        Some(LockfileKind::Pnpm)
    } else if name == "yarn.lock"@ {
        Some(LockfileKind::YarnV1)
    } else if name == "requirements.txt"@ || name == "requirements.lock"@ || name == "constraints.txt"@ {
        Some(LockfileKind::PyRequirements)
    } else if name == "pipfile.lock"@ {
        Some(LockfileKind::PyPipfileLock)
    } else if name == "poetry.lock"@ {
        Some(LockfileKind::PyPoetryLock)
    } else if name == "uv.lock"@ {
        Some(LockfileKind::PyUvLock)
    } else if name == "pdm.lock"@ {
        Some(LockfileKind::PyPdmLock)
    } else if name == "gemfile.lock"@ || name == "gems.locked"@ {
        Some(LockfileKind::Gemfile)
    } else if name == "cargo.lock"@ {
        Some(LockfileKind::Cargo)
    } else if name == "pom.xml"@ {
        Some(LockfileKind::Pom)
    } else if name == "packages.lock.json"@ {
        Some(LockfileKind::NugetLock)
    } else if name == "packages.config"@ {
        Some(LockfileKind::NugetConfig)
    } else if name == "project.assets.json"@ {
        Some(LockfileKind::NugetAssets)
    } else if name == "composer.lock"@ {
        Some(LockfileKind::Composer)
    } else {
        None
    }
}

/// The content of a `yarn.lock` is that of Yarn Berry.
pub open spec fn is_berry(content: Seq<char>) -> bool {
    find(content, "__metadata:"@) is Some
}

/// The result of telling the format of a file by its lower-cased name and its content.
pub open spec fn detected(
    name: Seq<char>,
    content: Seq<char>,
    r: Result<LockfileKind, LockfileError>,
) -> bool {
    match kind_of(name) {
        Some(LockfileKind::YarnV1) => if is_berry(content) {
            r matches Err(LockfileError::YarnBerry)
        } else {
            r matches Ok(LockfileKind::YarnV1)
        },
        Some(kind) => r matches Ok(k) && k == kind,
        None => r matches Err(LockfileError::UnknownName(n)) && n@ == name,
    }
}

/// A text in lower case, by `str::to_lowercase`.
pub uninterp spec fn unicode_lower(text: Seq<char>) -> Seq<char>;

/// `str::to_lowercase` gives the text in lower case by the rules of Unicode, whatever the locale.
/// The contract names its result; on ASCII text that is the text with `A` to `Z` in lower case.
pub assume_specification[ str::to_lowercase ](s: &str) -> (r: String)
    ensures
        r@ == unicode_lower(s@),
        is_ascii_chars(s@) ==> r@ == Seq::new(s@.len(), |i: int| ascii_lower(s@[i])),
;

/// The format of the lockfile with a (lower-cased) name.
fn kind_of_name(name: &[char]) -> (r: Option<LockfileKind>)
    ensures
        r == kind_of(name@),
{
    if equals(name, "package-lock.json") || equals(name, "npm-shrinkwrap.json") {
        Some(LockfileKind::Npm)
    } else if equals(name, "pnpm-lock.yaml") || equals(name, "pnpm-lock.yml") {
        Some(LockfileKind::Pnpm)
    } else if equals(name, "yarn.lock") {
        Some(LockfileKind::YarnV1)
    } else if equals(name, "requirements.txt") || equals(name, "requirements.lock") || equals(
        name,
        "constraints.txt",
    ) {
        Some(LockfileKind::PyRequirements)
    } else if equals(name, "pipfile.lock") {
        Some(LockfileKind::PyPipfileLock)
    } else if equals(name, "poetry.lock") {
        Some(LockfileKind::PyPoetryLock)
    } else if equals(name, "uv.lock") {
        Some(LockfileKind::PyUvLock)
    } else if equals(name, "pdm.lock") {
        Some(LockfileKind::PyPdmLock)
    } else if equals(name, "gemfile.lock") || equals(name, "gems.locked") {
        Some(LockfileKind::Gemfile)
    } else if equals(name, "cargo.lock") {
        Some(LockfileKind::Cargo)
    } else if equals(name, "pom.xml") {
        Some(LockfileKind::Pom)
    } else if equals(name, "packages.lock.json") {
        Some(LockfileKind::NugetLock)
    } else if equals(name, "packages.config") {
        Some(LockfileKind::NugetConfig)
    } else if equals(name, "project.assets.json") {
        Some(LockfileKind::NugetAssets)
    } else if equals(name, "composer.lock") {
        Some(LockfileKind::Composer)
    } else {
        None
    }
}

/// Whether a file is a lockfile by its name, in any case.
pub fn is_lockfile_name(file_name: &str) -> (r: bool)
    ensures
        r == (kind_of(unicode_lower(file_name@)) is Some),
{
    kind_of_name(chars_of(file_name.to_lowercase().as_str()).as_slice()).is_some()
}

/// Tells the format of a lockfile by its lower-cased name and its content.
pub fn kind_for(name: String, content: &str) -> (r: Result<LockfileKind, LockfileError>)
    ensures
        detected(name@, content@, r),
{
    let chars: Vec<char> = chars_of(name.as_str());
    match kind_of_name(chars.as_slice()) {
        Some(LockfileKind::YarnV1) => {
            if contains_text(chars_of(content).as_slice(), "__metadata:") {
                Err(LockfileError::YarnBerry)
            } else {
                Ok(LockfileKind::YarnV1)
            }
        },
        Some(kind) => Ok(kind),
        None => Err(LockfileError::UnknownName(name)),
    }
}

/// Tells the format of a lockfile by its name, in any case, and its content.
pub fn detect_kind(file_name: &str, content: &str) -> (r: Result<LockfileKind, LockfileError>)
    ensures
        detected(unicode_lower(file_name@), content@, r),
        is_ascii_chars(file_name@) ==> detected(
            Seq::new(file_name@.len(), |i: int| ascii_lower(file_name@[i])),
            content@,
            r,
        ),
{
    kind_for(file_name.to_lowercase(), content)
}

// ---------------------------------------------------------------------------
// What the service can act on
// ---------------------------------------------------------------------------

/// An entry that the public registry of its ecosystem can know: it has a name and a version, and
/// is no reference to a file, a link, a workspace, a repository or another address.
pub open spec fn on_registry(e: Entry) -> bool {
    &&& e.name.len() > 0
    &&& e.version.len() > 0
    &&& match e.ecosystem {
        Ecosystem::Npm => {
            &&& !"file:"@.is_prefix_of(e.version)
            &&& !"link:"@.is_prefix_of(e.version)
            &&& !"workspace:"@.is_prefix_of(e.version)
            &&& !"git+"@.is_prefix_of(e.version)
            &&& !"github:"@.is_prefix_of(e.version)
            &&& !"npm:"@.is_prefix_of(e.version)
            &&& !e.version.contains('/')
        },
        Ecosystem::Pypi => {
            &&& !"git+"@.is_prefix_of(e.version)
            &&& !"file:"@.is_prefix_of(e.version)
            &&& !"http://"@.is_prefix_of(e.version)
            &&& !"https://"@.is_prefix_of(e.version)
            &&& !e.name.contains('/')
        },
        Ecosystem::Rubygems => !e.name.contains('/'),
        Ecosystem::Cargo => true,
        Ecosystem::Maven => {
            &&& !"${"@.is_prefix_of(e.version)
            &&& e.version[0] != '['
            &&& e.version[0] != '('
            &&& e.name.contains(':')
        },
        Ecosystem::Nuget => true,
        Ecosystem::Composer => true,
    }
}

/// `out` is the entries of `all` that the service can act on: sorted, and each of them once.
pub open spec fn canonical(all: Seq<Entry>, out: Seq<Entry>) -> bool {
    &&& strictly_sorted(out)
    &&& forall|e: Entry| #[trigger] out.contains(e) <==> all.contains(e) && on_registry(e)
}

/// Two canonical lists of the same entries are the same, in whatever order and however often
/// the entries were given.
pub proof fn law_canonical_list_is_unique(a: Seq<Entry>, b: Seq<Entry>, x: Seq<Entry>, y: Seq<Entry>)
    requires
        canonical(a, x),
        canonical(b, y),
        forall|e: Entry| a.contains(e) <==> b.contains(e),
    ensures
        x == y,
{
    assert forall|e: Entry| x.contains(e) <==> y.contains(e) by {
        assert(x.contains(e) <==> a.contains(e) && on_registry(e));
        assert(y.contains(e) <==> b.contains(e) && on_registry(e));
    }
    law_sorted_list_is_fixed_by_its_entries(x, y);
}

/// A canonical list is its own canonical list: filtering and sorting it once more changes nothing.
pub proof fn law_canonical_list_stays(a: Seq<Entry>, x: Seq<Entry>, y: Seq<Entry>)
    requires
        canonical(a, x),
        canonical(x, y),
    ensures
        x == y,
{
    assert forall|e: Entry| x.contains(e) <==> y.contains(e) by {
        assert(x.contains(e) <==> a.contains(e) && on_registry(e));
        assert(y.contains(e) <==> x.contains(e) && on_registry(e));
    }
    law_sorted_list_is_fixed_by_its_entries(x, y);
}

/// Whether the service can act on an entry.
pub fn is_on_registry(e: &LockfileEntry) -> (r: bool)
    ensures
        r == on_registry(e@),
{
    let name: Vec<char> = chars_of(e.name.as_str());
    let version: Vec<char> = chars_of(e.version.as_str());
    let n: &[char] = name.as_slice();
    let v: &[char] = version.as_slice();
    if n.len() == 0 || v.len() == 0 {
        return false;
    }
    match e.ecosystem {
        Ecosystem::Npm => !starts_with(v, "file:") && !starts_with(v, "link:") && !starts_with(v, "workspace:")
            && !starts_with(v, "git+") && !starts_with(v, "github:") && !starts_with(v, "npm:")
            && !contains_char(v, '/'),
        Ecosystem::Pypi => !starts_with(v, "git+") && !starts_with(v, "file:") && !starts_with(v, "http://")
            && !starts_with(v, "https://") && !contains_char(n, '/'),
        Ecosystem::Rubygems => !contains_char(n, '/'),
        Ecosystem::Cargo => true,
        Ecosystem::Maven => !starts_with(v, "${") && v[0] != '[' && v[0] != '(' && contains_char(n, ':'),
        Ecosystem::Nuget => true,
        Ecosystem::Composer => true,
    }
}

/// Keeps the entries that the service can act on, sorted and each of them once.
pub fn gate_list(list: Vec<LockfileEntry>) -> (r: Vec<LockfileEntry>)
    ensures
        canonical(entries(list@), entries(r@)),
{
    let mut out: Vec<LockfileEntry> = Vec::new();
    let ghost all = entries(list@);
    let mut i: usize = 0;
    assert(entries(out@) =~= Seq::empty());
    while i < list.len()
        invariant
            i <= list.len(),
            all == entries(list@),
            strictly_sorted(entries(out@)),
            forall|e: Entry| #[trigger]
                entries(out@).contains(e) <==> all.take(i as int).contains(e) && on_registry(e),
        decreases list.len() - i,
    {
        let ghost done = entries(out@);
        let ghost front = all.take(i as int);
        let ghost next = all.take(i + 1);
        proof {
            assert(next =~= front.push(all[i as int]));
            assert forall|e: Entry| next.contains(e) <==> front.contains(e) || e == all[i as int] by {
                if front.contains(e) {
                    let k = choose|k: int| 0 <= k < front.len() && front[k] == e;
                    assert(next[k] == e);
                }
                assert(next[i as int] == all[i as int]);
                if next.contains(e) {
                    let k = choose|k: int| 0 <= k < next.len() && next[k] == e;
                    if k < i {
                        assert(front[k] == e);
                    }
                }
            }
        }
        if is_on_registry(&list[i]) {
            insert_sorted(&mut out, list[i].clone());
        }
        assert forall|e: Entry| #[trigger]
            entries(out@).contains(e) <==> next.contains(e) && on_registry(e) by {
            assert(done.contains(e) <==> front.contains(e) && on_registry(e));
        }
        i += 1;
    }
    assert(all.take(i as int) =~= all);
    out
}

// ---------------------------------------------------------------------------
// A lockfile
// ---------------------------------------------------------------------------

/// The entries that a lockfile of a format lists, in its order; nothing where the content is not
/// in the syntax of the format.
pub open spec fn listed(kind: LockfileKind, content: Seq<char>) -> Option<Seq<Entry>> {
    match kind {
        LockfileKind::Npm => match json_document(content) {
            Some(doc) => Some(npm_entries(doc)),
            None => None,
        },
        LockfileKind::Pnpm => match yaml_document(content) {
            Some(doc) => Some(pnpm_entries(doc)),
            None => None,
        },
        LockfileKind::YarnV1 => Some(yarn_entries(content)),
        LockfileKind::PyRequirements => Some(requirements_entries(content)),
        LockfileKind::PyPipfileLock => match json_document(content) {
            Some(doc) => Some(pipfile_entries(doc)),
            None => None,
        },
        LockfileKind::PyPoetryLock | LockfileKind::PyUvLock | LockfileKind::PyPdmLock => match toml_document(
            content,
        ) {
            Some(doc) => Some(python_lock_entries(doc)),
            None => None,
        },
        LockfileKind::Gemfile => Some(gemfile_entries(content)),
        LockfileKind::Cargo => match toml_document(content) {
            Some(doc) => Some(cargo_entries(doc)),
            None => None,
        },
        LockfileKind::Pom => Some(pom_entries(content)),
        LockfileKind::NugetLock => match json_document(content) {
            Some(doc) => Some(nuget_lock_entries(doc)),
            None => None,
        },
        LockfileKind::NugetConfig => Some(packages_config_entries(content)),
        LockfileKind::NugetAssets => match json_document(content) {
            Some(doc) => Some(nuget_assets_entries(doc)),
            None => None,
        },
        LockfileKind::Composer => match json_document(content) {
            Some(doc) => Some(composer_entries(doc)),
            None => None,
        },
    }
}

/// The document that is refused where the content is not in the syntax of its format.
pub open spec fn document_of(kind: LockfileKind) -> Document {
    match kind {
        LockfileKind::Npm => Document::PackageLock,
        LockfileKind::Pnpm => Document::PnpmLock,
        LockfileKind::PyPipfileLock => Document::PipfileLock,
        LockfileKind::Cargo => Document::CargoLock,
        LockfileKind::NugetLock => Document::NugetLock,
        LockfileKind::NugetAssets => Document::NugetAssets,
        LockfileKind::Composer => Document::ComposerLock,
        _ => Document::TomlLock,
    }
}

/// Parses the content of a lockfile of a known format.
pub fn parse_kind(kind: LockfileKind, content: &str) -> (r: Result<Vec<LockfileEntry>, LockfileError>)
    ensures
        match listed(kind, content@) {
            Some(all) => r matches Ok(v) && entries(v@) == all,
            None => r matches Err(LockfileError::Syntax(d, _)) && d == document_of(kind),
        },
{
    match kind {
        LockfileKind::Npm => parse_npm(content),
        LockfileKind::Pnpm => parse_pnpm(content),
        LockfileKind::YarnV1 => parse_yarn_v1(content),
        LockfileKind::PyRequirements => parse_requirements_txt(content),
        LockfileKind::PyPipfileLock => parse_pipfile_lock(content),
        LockfileKind::PyPoetryLock => parse_poetry_lock(content),
        LockfileKind::PyUvLock => parse_uv_lock(content),
        LockfileKind::PyPdmLock => parse_pdm_lock(content),
        LockfileKind::Gemfile => parse_gemfile_lock(content),
        LockfileKind::Cargo => parse_cargo_lock(content),
        LockfileKind::Pom => parse_pom_xml(content),
        LockfileKind::NugetLock => parse_nuget_lock(content),
        LockfileKind::NugetConfig => parse_packages_config(content),
        LockfileKind::NugetAssets => parse_nuget_assets(content),
        LockfileKind::Composer => parse_composer_lock(content),
    }
}

/// The entries that a file with a (lower-cased) name and a content lists, in its order; nothing
/// where the name is unknown or the content cannot be read.
pub open spec fn readable(name: Seq<char>, content: Seq<char>) -> Option<Seq<Entry>> {
    match kind_of(name) {
        Some(kind) => if kind == LockfileKind::YarnV1 && is_berry(content) {
            None
        } else {
            listed(kind, content)
        },
        None => None,
    }
}

/// The result of parsing a file with a lower-cased name and a content.
pub open spec fn parsed(
    name: Seq<char>,
    content: Seq<char>,
    r: Result<Vec<LockfileEntry>, LockfileError>,
) -> bool {
    match kind_of(name) {
        Some(kind) => if kind == LockfileKind::YarnV1 && is_berry(content) {
            r matches Err(LockfileError::YarnBerry)
        } else {
            match listed(kind, content) {
                Some(all) => r matches Ok(v) && canonical(all, entries(v@)),
                None => r matches Err(LockfileError::Syntax(d, _)) && d == document_of(kind),
            }
        },
        None => r matches Err(LockfileError::UnknownName(n)) && n@ == name,
    }
}

/// Parses a lockfile, given its file name and its content, into the entries that the service can
/// act on. Malformed entries are skipped; the result is sorted, and each entry occurs once.
pub fn parse(file_name: &str, content: &str) -> (r: Result<Vec<LockfileEntry>, LockfileError>)
    ensures
        parsed(unicode_lower(file_name@), content@, r),
        is_ascii_chars(file_name@) ==> parsed(
            Seq::new(file_name@.len(), |i: int| ascii_lower(file_name@[i])),
            content@,
            r,
        ),
{
    let name: String = file_name.to_lowercase();
    let ghost lower = name@;
    match kind_for(name, content) {
        Ok(kind) => match parse_kind(kind, content) {
            Ok(list) => Ok(gate_list(list)),
            Err(e) => Err(e),
        },
        Err(e) => Err(e),
    }
}

} // verus!
