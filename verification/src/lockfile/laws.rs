//! What holds of every entry of a lockfile, by its format.
use vstd::prelude::*;

use crate::entry::{Ecosystem, Entry};
use crate::json::{json_document, Json};
use crate::lockfile::composer::{composer_list, composer_rule};
use crate::lockfile::gemfile::{gem_state, is_plain_version};
use crate::lockfile::npm::{lemma_npm_nested_decreases, npm_entries, npm_nested, npm_rule, npm_walk};
use crate::lockfile::nuget::{config_package, config_packages, locked_rule, resolved_rule, under_frameworks};
use crate::lockfile::pnpm::pnpm_rule;
use crate::lockfile::pom::{closing, dependencies, dependency, inner_text, is_concrete, opening, without_blocks};
use crate::lockfile::pypi::{
    is_normal, law_normalized_name_is_normal, pipfile_rule, pipfile_section, pypi_entry, valid_name,
};
use crate::lockfile::requirements::{joined_lines, requirements_rule};
use crate::lockfile::toml_locks::{cargo_rule, python_rule};
use crate::lockfile::yarn::{block_entries, yarn_state};
use crate::lockfile::{each, lemma_each_from, listed, on_registry, LockfileKind};
use crate::text::{find, find_char, lemma_find, lemma_find_char, lines, trim};
use crate::toml_file::toml_document;
use crate::yaml::yaml_document;

verus! {

/// The ecosystem that a format belongs to.
pub open spec fn ecosystem_of(kind: LockfileKind) -> Ecosystem {
    match kind {
        LockfileKind::Npm | LockfileKind::Pnpm | LockfileKind::YarnV1 => Ecosystem::Npm,
        LockfileKind::PyRequirements
        | LockfileKind::PyPipfileLock
        | LockfileKind::PyPoetryLock
        | LockfileKind::PyUvLock
        | LockfileKind::PyPdmLock => Ecosystem::Pypi,
        LockfileKind::Gemfile => Ecosystem::Rubygems,
        LockfileKind::Cargo => Ecosystem::Cargo,
        LockfileKind::Pom => Ecosystem::Maven,
        LockfileKind::NugetLock | LockfileKind::NugetConfig | LockfileKind::NugetAssets => Ecosystem::Nuget,
        LockfileKind::Composer => Ecosystem::Composer,
    }
}

/// What an entry of an ecosystem is like: a PyPI name is valid and in normal form; the version of
/// a gem is pinned and without a platform; a Maven coordinate is concrete, so that its registry
/// can know it; a Composer version is no branch.
pub open spec fn fits(e: Entry) -> bool {
    match e.ecosystem {
        Ecosystem::Pypi => valid_name(e.name) && is_normal(e.name),
        Ecosystem::Rubygems => is_plain_version(e.version),
        Ecosystem::Maven => is_concrete(e.version) && on_registry(e),
        Ecosystem::Composer => !"dev-"@.is_prefix_of(e.version),
        _ => true,
    }
}

/// Every entry that a lockfile lists is of the ecosystem of its format, and like one of it.
pub proof fn law_entries_fit_their_format(kind: LockfileKind, content: Seq<char>, e: Entry)
    requires
        listed(kind, content) is Some,
        listed(kind, content)->Some_0.contains(e),
    ensures
        e.ecosystem == ecosystem_of(kind),
        fits(e),
{
    match kind {
        LockfileKind::Npm => {
            let doc = json_document(content)->Some_0;
            lemma_npm(doc, e);
        },
        LockfileKind::Pnpm => {
            let doc = yaml_document(content)->Some_0;
            let fields = doc.field("packages"@)->Some_0.fields()->Some_0;
            lemma_each_from(fields, pnpm_rule(), e);
        },
        LockfileKind::YarnV1 => {
            let all = lines(content);
            let st = yarn_state(all, all.len());
            lemma_yarn(all, all.len());
            let last = block_entries(st.names, st.version);
            lemma_in_either(st.done, last, e);
        },
        LockfileKind::PyRequirements => {
            let raw = lines(content);
            let joined = lines(joined_lines(raw, raw.len()));
            lemma_each_from(joined, requirements_rule(), e);
            let i = choose|i: int| 0 <= i < joined.len() && requirements_rule()(#[trigger] joined[i]) == Some(e);
            lemma_pypi_fits(e);
        },
        LockfileKind::PyPipfileLock => {
            let doc = json_document(content)->Some_0;
            let a = pipfile_section(doc, "default"@);
            let b = pipfile_section(doc, "develop"@);
            lemma_in_either(a, b, e);
            if a.contains(e) {
                lemma_each_from(doc.field_fields("default"@)->Some_0, pipfile_rule(), e);
            } else {
                lemma_each_from(doc.field_fields("develop"@)->Some_0, pipfile_rule(), e);
            }
            lemma_pypi_fits(e);
        },
        LockfileKind::PyPoetryLock | LockfileKind::PyUvLock | LockfileKind::PyPdmLock => {
            let doc = toml_document(content)->Some_0;
            lemma_each_from(doc.field_items("package"@)->Some_0, python_rule(), e);
            lemma_pypi_fits(e);
        },
        LockfileKind::Gemfile => {
            let all = lines(content);
            lemma_gems(all, all.len());
        },
        LockfileKind::Cargo => {
            let doc = toml_document(content)->Some_0;
            lemma_each_from(doc.field_items("package"@)->Some_0, cargo_rule(), e);
        },
        LockfileKind::Pom => {
            let open = opening("dependencyManagement"@);
            let close = closing("dependencyManagement"@);
            lemma_pom(without_blocks(without_blocks(content, open, close), "<!--"@, "-->"@), e);
        },
        LockfileKind::NugetLock => {
            let doc = json_document(content)->Some_0;
            let frameworks = doc.field_fields("dependencies"@)->Some_0;
            lemma_frameworks(frameworks, locked_rule(), frameworks.len(), e);
        },
        LockfileKind::NugetConfig => {
            lemma_config(without_blocks(content, "<!--"@, "-->"@), e);
        },
        LockfileKind::NugetAssets => {
            let doc = json_document(content)->Some_0;
            let frameworks = doc.field_fields("targets"@)->Some_0;
            lemma_frameworks(frameworks, resolved_rule(), frameworks.len(), e);
        },
        LockfileKind::Composer => {
            let doc = json_document(content)->Some_0;
            let a = composer_list(doc, "packages"@);
            let b = composer_list(doc, "packages-dev"@);
            lemma_in_either(a, b, e);
            if a.contains(e) {
                lemma_each_from(doc.field_items("packages"@)->Some_0, composer_rule(), e);
            } else {
                lemma_each_from(doc.field_items("packages-dev"@)->Some_0, composer_rule(), e);
            }
        },
    }
}

/// What stands in two lists together stands in one of them.
pub proof fn lemma_in_either(a: Seq<Entry>, b: Seq<Entry>, e: Entry)
    ensures
        (a + b).contains(e) <==> a.contains(e) || b.contains(e),
{
    let s = a + b;
    if s.contains(e) {
        let i = choose|i: int| 0 <= i < s.len() && s[i] == e;
        if i < a.len() {
            assert(a[i] == e);
        } else {
            assert(b[i - a.len()] == e);
        }
    }
    if a.contains(e) {
        let i = choose|i: int| 0 <= i < a.len() && a[i] == e;
        assert(s[i] == e);
    }
    if b.contains(e) {
        let i = choose|i: int| 0 <= i < b.len() && b[i] == e;
        assert(s[a.len() + i] == e);
    }
}

/// An entry that the Python formats make has a valid name in normal form.
proof fn lemma_pypi_fits(e: Entry)
    requires
        exists|raw: Seq<char>, version: Seq<char>| #[trigger] pypi_entry(raw, version) == Some(e),
    ensures
        e.ecosystem == Ecosystem::Pypi,
        fits(e),
{
    let (raw, version) = choose|raw: Seq<char>, version: Seq<char>| #[trigger]
        pypi_entry(raw, version) == Some(e);
    law_normalized_name_is_normal(raw);
}

/// The packages of a `package-lock.json` are npm packages.
proof fn lemma_npm(doc: Json, e: Entry)
    requires
        npm_entries(doc).contains(e),
    ensures
        e.ecosystem == Ecosystem::Npm,
{
    let version = match doc.field_natural("lockfileVersion"@) {
        Some(v) => v,
        None => 1,
    };
    if version >= 2 {
        lemma_each_from(doc.field_fields("packages"@)->Some_0, npm_rule(), e);
    } else {
        let deps = doc.field_fields("dependencies"@)->Some_0;
        lemma_npm_walk(deps, deps.len(), e);
    }
}

/// The packages of nested dependencies are npm packages.
proof fn lemma_npm_walk(deps: Seq<(Seq<char>, Json)>, n: nat, e: Entry)
    requires
        npm_walk(deps, n).contains(e),
    ensures
        e.ecosystem == Ecosystem::Npm,
    decreases deps, n,
{
    if 0 < n <= deps.len() {
        let value = deps[n - 1].1;
        let own = match value.field_text("version"@) {
            Some(version) => seq![Entry { ecosystem: Ecosystem::Npm, name: deps[n - 1].0, version }],
            None => Seq::empty(),
        };
        let nested = npm_nested(value);
        let deep = if nested.len() == 0 {
            Seq::empty()
        } else {
            npm_walk(nested, nested.len())
        };
        let before = npm_walk(deps, (n - 1) as nat);
        lemma_in_either(before + own, deep, e);
        lemma_in_either(before, own, e);
        if before.contains(e) {
            lemma_npm_walk(deps, (n - 1) as nat, e);
        } else if deep.contains(e) {
            lemma_npm_nested_decreases(deps, n - 1);
            lemma_npm_walk(nested, nested.len(), e);
        }
    }
}

/// The packages of a `yarn.lock` are npm packages.
proof fn lemma_yarn(all: Seq<Seq<char>>, n: nat)
    ensures
        forall|i: int|
            0 <= i < yarn_state(all, n).done.len() ==> (#[trigger] yarn_state(all, n).done[i]).ecosystem
                == Ecosystem::Npm,
    decreases n,
{
    if 0 < n <= all.len() {
        lemma_yarn(all, (n - 1) as nat);
    }
}

/// The gems of a `Gemfile.lock` fit their ecosystem.
proof fn lemma_gems(all: Seq<Seq<char>>, n: nat)
    ensures
        forall|i: int|
            0 <= i < gem_state(all, n).done.len() ==> {
                &&& (#[trigger] gem_state(all, n).done[i]).ecosystem == Ecosystem::Rubygems
                &&& is_plain_version(gem_state(all, n).done[i].version)
            },
    decreases n,
{
    if 0 < n <= all.len() {
        lemma_gems(all, (n - 1) as nat);
    }
}

/// The coordinates of a `pom.xml` fit their ecosystem.
proof fn lemma_pom(s: Seq<char>, e: Entry)
    requires
        dependencies(s).contains(e),
    ensures
        e.ecosystem == Ecosystem::Maven,
        fits(e),
    decreases s.len(),
{
    let open = opening("dependency"@);
    let close = closing("dependency"@);
    lemma_find(s, open);
    let i = find_in(s, open);
    let after = s.skip(i + open.len());
    lemma_find(after, close);
    let j = find_in(after, close);
    let rest = after.skip(j + close.len());
    match dependency(after.take(j)) {
        Some(first) => {
            lemma_in_either(seq![first], dependencies(rest), e);
            if dependencies(rest).contains(e) {
                lemma_pom(rest, e);
            } else {
                assert(e == first);
                lemma_has_colon(after.take(j));
            }
        },
        None => {
            lemma_pom(rest, e);
        },
    }
}

/// The position at which `p` stands in `s`.
spec fn find_in(s: Seq<char>, p: Seq<char>) -> int {
    find(s, p)->Some_0
}

/// A coordinate has its colon.
proof fn lemma_has_colon(block: Seq<char>)
    requires
        dependency(block) is Some,
    ensures
        on_registry(dependency(block)->Some_0),
{
    let group = trim(inner_text(block, "groupId"@, 0)->Some_0);
    let e = dependency(block)->Some_0;
    assert(e.name[group.len() as int] == ':');
}

/// The packages under frameworks are NuGet packages.
proof fn lemma_frameworks(
    frameworks: Seq<(Seq<char>, Json)>,
    rule: spec_fn((Seq<char>, Json)) -> Option<Entry>,
    n: nat,
    e: Entry,
)
    requires
        rule == locked_rule() || rule == resolved_rule(),
        under_frameworks(frameworks, rule, n).contains(e),
    ensures
        e.ecosystem == Ecosystem::Nuget,
    decreases n,
{
    if 0 < n <= frameworks.len() {
        let before = under_frameworks(frameworks, rule, (n - 1) as nat);
        let own = match frameworks[n - 1].1.fields() {
            Some(fields) => each(fields, rule),
            None => Seq::empty(),
        };
        lemma_in_either(before, own, e);
        if before.contains(e) {
            lemma_frameworks(frameworks, rule, (n - 1) as nat, e);
        } else {
            lemma_each_from(frameworks[n - 1].1.fields()->Some_0, rule, e);
        }
    }
}

/// The packages of a `packages.config` are NuGet packages.
proof fn lemma_config(s: Seq<char>, e: Entry)
    requires
        config_packages(s).contains(e),
    ensures
        e.ecosystem == Ecosystem::Nuget,
    decreases s.len(),
{
    reveal_strlit("<package");
    lemma_find(s, "<package"@);
    let i = find_in(s, "<package"@);
    let after = s.skip(i + "<package"@.len());
    lemma_find_char(after, '>');
    let j = find_char(after, '>')->Some_0;
    let rest = config_packages(after.skip(j + 1));
    match config_package(after.take(j)) {
        Some(first) => {
            lemma_in_either(seq![first], rest, e);
            if rest.contains(e) {
                lemma_config(after.skip(j + 1), e);
            }
        },
        None => {
            lemma_config(after.skip(j + 1), e);
        },
    }
}

} // verus!
