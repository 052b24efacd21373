//! What the lockfiles that are documents list: which packages, told by what stands in them.
use vstd::prelude::*;

use crate::entry::{Ecosystem, Entry};
use crate::json::{json_document, Json};
use crate::lockfile::composer::{composer_list, composer_rule};
use crate::lockfile::laws::lemma_in_either;
use crate::lockfile::npm::{lemma_npm_nested_decreases, npm_nested, npm_rule, npm_walk};
use crate::lockfile::nuget::{locked_rule, resolved_rule, under_frameworks};
use crate::lockfile::pnpm::{pnpm_at, pnpm_core, pnpm_key, pnpm_rule};
use crate::lockfile::pypi::{normal_name, pipfile_rule, pipfile_section, pipfile_version, valid_name};
use crate::lockfile::toml_locks::{cargo_rule, python_rule};
use crate::lockfile::{each, lemma_each_from, listed, LockfileKind};
use crate::text::{
    after_last, find, find_char, is_space, lemma_find_char, lemma_find_char_from, lemma_rfind_char, rfind_char,
    trim_end, trim_start_text,
};
use crate::text_laws::{
    all_space, is_bare, lacks, law_trim_gives_back_bare_text, lemma_after_last, lemma_first_char,
    lemma_has_last, lemma_no_char,
};
use crate::toml_file::{toml_document, Toml};
use crate::yaml::{yaml_document, Yaml};

verus! {

// ---------------------------------------------------------------------------
// Items
// ---------------------------------------------------------------------------

/// What `rule` reads in an item is in the list.
proof fn lemma_each_has<T>(items: Seq<T>, rule: spec_fn(T) -> Option<Entry>, i: int, e: Entry)
    requires
        0 <= i < items.len(),
        rule(items[i]) == Some(e),
    ensures
        each(items, rule).contains(e),
    decreases items.len(),
{
    let out = each(items, rule);
    let front = each(items.drop_last(), rule);
    if i == items.len() - 1 {
        assert(out[front.len() as int] == e);
    } else {
        assert(items.drop_last()[i] == items[i]);
        lemma_each_has(items.drop_last(), rule, i, e);
        let k = choose|k: int| 0 <= k < front.len() && front[k] == e;
        assert(out[k] == e);
    }
}

/// An entry is read if and only if it is read in some item.
pub proof fn law_entry_is_read_iff_some_item_gives_it<T>(
    items: Seq<T>,
    rule: spec_fn(T) -> Option<Entry>,
    e: Entry,
)
    ensures
        each(items, rule).contains(e) <==> exists|i: int| 0 <= i < items.len() && rule(#[trigger] items[i]) == Some(e),
{
    if each(items, rule).contains(e) {
        lemma_each_from(items, rule, e);
    }
    if exists|i: int| 0 <= i < items.len() && rule(#[trigger] items[i]) == Some(e) {
        let i = choose|i: int| 0 <= i < items.len() && rule(#[trigger] items[i]) == Some(e);
        lemma_each_has(items, rule, i, e);
    }
}

/// Items are read one by one, in their order: those of two lists one after the other give what the
/// first gives and then what the second gives.
pub proof fn law_items_are_read_one_by_one<T>(a: Seq<T>, b: Seq<T>, rule: spec_fn(T) -> Option<Entry>)
    ensures
        each(a + b, rule) == each(a, rule) + each(b, rule),
    decreases b.len(),
{
    if b.len() == 0 {
        assert(a + b =~= a);
        assert(each(a, rule) + each(b, rule) =~= each(a, rule));
    } else {
        assert((a + b).drop_last() =~= a + b.drop_last());
        assert((a + b).last() == b.last());
        law_items_are_read_one_by_one(a, b.drop_last(), rule);
        assert(each(a + b, rule) =~= each(a, rule) + each(b, rule));
    }
}

// ---------------------------------------------------------------------------
// package-lock.json
// ---------------------------------------------------------------------------

/// The name of the package at a key: the one that the entry gives; where it gives none, what
/// follows the last `node_modules/` of the key, or the key itself where it has none.
pub open spec fn is_named(key: Seq<char>, value: Json, name: Seq<char>) -> bool {
    match value.field("name"@) {
        Some(Json::Text(given)) => name == given,
        _ => find(name, "node_modules/"@) is None && (key == name || exists|path: Seq<char>|
            key == #[trigger] (path + "node_modules/"@ + name)),
    }
}

proof fn lemma_npm_key(key: Seq<char>, name: Seq<char>)
    ensures
        after_last(key, "node_modules/"@) == name <==> find(name, "node_modules/"@) is None && (key == name
            || exists|path: Seq<char>| key == #[trigger] (path + "node_modules/"@ + name)),
{
    reveal_strlit("node_modules/");
    let p = "node_modules/"@;
    assert(forall|i: int| 0 < i < p.len() ==> #[trigger] p[i] != p[0]);
    lemma_has_last(key, p);
    if after_last(key, p) == name && find(key, p) is Some {
        let path = key.take(key.len() - name.len() - p.len());
        assert(key == path + p + name);
    }
    if find(name, p) is None {
        if exists|path: Seq<char>| key == #[trigger] (path + p + name) {
            let path = choose|path: Seq<char>| key == #[trigger] (path + p + name);
            lemma_after_last(path, p, name);
        }
        lemma_after_last(Seq::empty(), p, name);
    }
}

/// A `package-lock.json` of version 2 or later lists exactly the packages of its `packages` that
/// have a name and a version, each wherever it is installed and whatever else its entry says; the
/// root project, at the empty key, is none.
pub proof fn law_package_lock_lists_its_packages(
    content: Seq<char>,
    doc: Json,
    packages: Seq<(Seq<char>, Json)>,
    e: Entry,
)
    requires
        json_document(content) == Some(doc),
        doc.field("lockfileVersion"@) matches Some(Json::Number(Some(v), _)) && v >= 2,
        doc.field("packages"@) == Some(Json::Record(packages)),
    ensures
        listed(LockfileKind::Npm, content) is Some,
        listed(LockfileKind::Npm, content)->Some_0.contains(e) <==> e.ecosystem is Npm && e.name.len() > 0
            && exists|i: int|
            {
                &&& 0 <= i < packages.len()
                &&& (#[trigger] packages[i]).0.len() > 0
                &&& packages[i].1.field("version"@) == Some(Json::Text(e.version))
                &&& is_named(packages[i].0, packages[i].1, e.name)
            },
{
    law_entry_is_read_iff_some_item_gives_it(packages, npm_rule(), e);
    assert forall|i: int| 0 <= i < packages.len() implies (npm_rule()(#[trigger] packages[i]) == Some(e) <==> {
        &&& e.ecosystem is Npm
        &&& e.name.len() > 0
        &&& packages[i].0.len() > 0
        &&& packages[i].1.field("version"@) == Some(Json::Text(e.version))
        &&& is_named(packages[i].0, packages[i].1, e.name)
    }) by {
        lemma_npm_key(packages[i].0, e.name);
    }
}

/// The dependencies that a dependency nests.
pub open spec fn nests(value: Json, nested: Seq<(Seq<char>, Json)>) -> bool {
    value.field("dependencies"@) == Some(Json::Record(nested))
}

/// Dependencies list exactly those that have a version, under their key, and what those nest, to
/// any depth: what a list of dependencies lists is told by its members and what their nested
/// dependencies list.
pub proof fn law_dependencies_list_themselves_and_what_they_nest(deps: Seq<(Seq<char>, Json)>, e: Entry)
    ensures
        npm_walk(deps, deps.len()).contains(e) <==> exists|i: int|
            {
                &&& 0 <= i < deps.len()
                &&& {
                    ||| e.ecosystem is Npm && (#[trigger] deps[i]).0 == e.name && deps[i].1.field("version"@) == Some(
                        Json::Text(e.version),
                    )
                    ||| exists|nested: Seq<(Seq<char>, Json)>| #[trigger]
                        nests(deps[i].1, nested) && npm_walk(nested, nested.len()).contains(e)
                }
            },
{
    lemma_walk(deps, deps.len(), e);
    assert forall|i: int| 0 <= i < deps.len() implies (gives(#[trigger] deps[i], e) <==> {
        ||| e.ecosystem is Npm && deps[i].0 == e.name && deps[i].1.field("version"@) == Some(Json::Text(e.version))
        ||| exists|nested: Seq<(Seq<char>, Json)>| #[trigger]
            nests(deps[i].1, nested) && npm_walk(nested, nested.len()).contains(e)
    }) by {
        let value = deps[i].1;
        let nested = npm_nested(value);
        if npm_walk(nested, nested.len()).contains(e) {
            assert(nested.len() > 0);
            assert(nests(value, nested));
        }
        if exists|n: Seq<(Seq<char>, Json)>| #[trigger] nests(value, n) && npm_walk(n, n.len()).contains(e) {
            let n = choose|n: Seq<(Seq<char>, Json)>| #[trigger]
                nests(value, n) && npm_walk(n, n.len()).contains(e);
            assert(nested == n);
        }
    }
}

/// A dependency gives an entry, or what it nests does.
spec fn gives(dep: (Seq<char>, Json), e: Entry) -> bool {
    ||| e.ecosystem is Npm && dep.0 == e.name && dep.1.field("version"@) == Some(Json::Text(e.version))
    ||| npm_walk(npm_nested(dep.1), npm_nested(dep.1).len()).contains(e)
}

proof fn lemma_walk(deps: Seq<(Seq<char>, Json)>, n: nat, e: Entry)
    requires
        n <= deps.len(),
    ensures
        npm_walk(deps, n).contains(e) <==> exists|i: int| 0 <= i < n && gives(#[trigger] deps[i], e),
    decreases n,
{
    if n > 0 {
        lemma_walk(deps, (n - 1) as nat, e);
        let value = deps[n - 1].1;
        let front = npm_walk(deps, (n - 1) as nat);
        let own = match value.field_text("version"@) {
            Some(version) => seq![Entry { ecosystem: Ecosystem::Npm, name: deps[n - 1].0, version }],
            None => Seq::empty(),
        };
        let nested = npm_nested(value);
        let rest = if nested.len() == 0 {
            Seq::empty()
        } else {
            npm_walk(nested, nested.len())
        };
        lemma_npm_nested_decreases(deps, n - 1);
        assert(npm_walk(deps, n) == front + own + rest);
        lemma_in_either(front + own, rest, e);
        lemma_in_either(front, own, e);
        assert(npm_walk(nested, 0) =~= Seq::<Entry>::empty());
        let given = e.ecosystem is Npm && deps[n - 1].0 == e.name && value.field("version"@) == Some(
            Json::Text(e.version),
        );
        assert(own.contains(e) <==> given) by {
            if given {
                assert(own[0] == e);
            }
        }
        assert(own.contains(e) || rest.contains(e) <==> gives(deps[n - 1], e));
    }
}

/// A `package-lock.json` of version 1, or one that does not tell its version, lists its
/// `dependencies`.
pub proof fn law_first_package_lock_lists_its_dependencies(
    content: Seq<char>,
    doc: Json,
    deps: Seq<(Seq<char>, Json)>,
)
    requires
        json_document(content) == Some(doc),
        !(doc.field("lockfileVersion"@) matches Some(Json::Number(Some(v), _)) && v >= 2),
        doc.field("dependencies"@) == Some(Json::Record(deps)),
    ensures
        listed(LockfileKind::Npm, content) == Some(npm_walk(deps, deps.len())),
{
}

// ---------------------------------------------------------------------------
// pnpm-lock.yaml
// ---------------------------------------------------------------------------

/// A `pnpm-lock.yaml` lists exactly the packages of its `packages` whose key has a name and a
/// version. The version that the entry itself gives wins over that of the key; nothing else that
/// the entry says matters.
pub proof fn law_pnpm_lock_lists_its_packages(
    content: Seq<char>,
    doc: Yaml,
    packages: Seq<(Yaml, Yaml)>,
    e: Entry,
)
    requires
        yaml_document(content) == Some(doc),
        doc.field("packages"@) matches Some(table) && table.fields() == Some(packages),
    ensures
        listed(LockfileKind::Pnpm, content) is Some,
        listed(LockfileKind::Pnpm, content)->Some_0.contains(e) <==> e.ecosystem is Npm && exists|i: int|
            {
                &&& 0 <= i < packages.len()
                &&& (#[trigger] packages[i]).0.text() matches Some(key)
                &&& pnpm_key(key) matches Some((name, version))
                &&& e.name == name
                &&& match packages[i].1.field("version"@) {
                    Some(given) => e.version == match given.text() {
                        Some(t) => t,
                        None => version,
                    },
                    None => e.version == version,
                }
            },
{
    law_entry_is_read_iff_some_item_gives_it(packages, pnpm_rule(), e);
    assert forall|i: int| 0 <= i < packages.len() implies (pnpm_rule()(#[trigger] packages[i]) == Some(e) <==> {
        &&& e.ecosystem is Npm
        &&& packages[i].0.text() matches Some(key)
        &&& pnpm_key(key) matches Some((name, version))
        &&& e.name == name
        &&& match packages[i].1.field("version"@) {
            Some(given) => e.version == match given.text() {
                Some(t) => t,
                None => version,
            },
            None => e.version == version,
        }
    }) by {}
}

/// What may stand behind name and version in a key: nothing, or peer information in brackets.
pub open spec fn is_peers(peers: Seq<char>) -> bool {
    peers.len() == 0 || peers[0] == '('
}

/// A key without its slash and its peer information.
proof fn lemma_pnpm_core(slash: Seq<char>, core: Seq<char>, peers: Seq<char>)
    requires
        slash == Seq::<char>::empty() || slash == seq!['/'],
        core.len() > 0,
        slash.len() == 0 ==> core[0] != '/',
        lacks(core, '('),
        !is_space(core.last()),
        is_peers(peers),
    ensures
        pnpm_core(slash + core + peers) == core,
{
    let key = slash + core + peers;
    let bare = core + peers;
    if slash.len() == 0 {
        assert(key =~= bare);
        assert(key[0] == core[0]);
    } else {
        assert(key.skip(1) =~= bare);
        assert(key[0] == '/');
    }
    if peers.len() == 0 {
        assert(bare =~= core);
        lemma_no_char(core, '(');
    } else {
        assert(bare =~= core + seq!['('] + peers.skip(1));
        lemma_first_char(core, '(', peers.skip(1));
        assert(trim_end(core) == core);
    }
}

/// The name and the version of a key, with an `@` between them, are told apart: with or without a
/// slash in front, for a scoped name too, and whatever peer information stands behind.
pub proof fn law_pnpm_key_gives_name_and_version(
    slash: Seq<char>,
    name: Seq<char>,
    version: Seq<char>,
    peers: Seq<char>,
)
    requires
        slash == Seq::<char>::empty() || slash == seq!['/'],
        name.len() > 0 && version.len() > 0,
        name[0] != '/',
        forall|i: int| 0 < i < name.len() ==> #[trigger] name[i] != '@',
        lacks(version, '@'),
        lacks(name, '(') && lacks(version, '('),
        !is_space(version.last()),
        is_peers(peers),
    ensures
        pnpm_key(slash + (name + seq!['@'] + version) + peers) == Some((name, version)),
{
    let core = name + seq!['@'] + version;
    assert(core.last() == version.last());
    assert(core[0] == name[0]);
    lemma_pnpm_core(slash, core, peers);
    let start: int = if name[0] == '@' {
        1
    } else {
        0
    };
    lemma_find_char_from(core, '@', start);
    assert(core[name.len() as int] == '@');
    let i = pnpm_at(core).unwrap();
    if i < name.len() {
        assert(core[i] == name[i]);
    }
    assert(i == name.len());
    assert(core.take(i) =~= name);
    assert(core.skip(i + 1) =~= version);
    if version.contains('@') {
        let k = choose|k: int| 0 <= k < version.len() && version[k] == '@';
        assert(version[k] == '@');
    }
}

/// The name and the version of an older key, with a slash between them, are told apart too. A key
/// with neither an `@` nor a slash inside gives none.
pub proof fn law_older_pnpm_key_gives_name_and_version(
    slash: Seq<char>,
    name: Seq<char>,
    version: Seq<char>,
    peers: Seq<char>,
)
    requires
        slash == Seq::<char>::empty() || slash == seq!['/'],
        name.len() > 0 && version.len() > 0,
        name[0] != '/',
        forall|i: int| 0 < i < name.len() ==> #[trigger] name[i] != '@',
        lacks(version, '@') && lacks(version, '/'),
        lacks(name, '(') && lacks(version, '('),
        !is_space(version.last()),
        is_peers(peers),
    ensures
        pnpm_key(slash + (name + seq!['/'] + version) + peers) == Some((name, version)),
        pnpm_key(slash + version + peers) is None,
{
    let core = name + seq!['/'] + version;
    assert(core.last() == version.last());
    assert(core[0] == name[0]);
    lemma_pnpm_core(slash, core, peers);
    lemma_find_char_from(core, '@', 1);
    lemma_find_char(core, '@');
    assert forall|i: int| 0 < i < core.len() implies #[trigger] core[i] != '@' by {
        if i < name.len() {
            assert(core[i] == name[i]);
        } else if i > name.len() {
            assert(core[i] == version[i - name.len() - 1]);
        }
    }
    assert(pnpm_at(core) is None);
    lemma_rfind_char(core, '/');
    assert(core[name.len() as int] == '/');
    let i = rfind_char(core, '/').unwrap();
    if i > name.len() {
        assert(core[i] == version[i - name.len() - 1]);
    }
    assert(core.take(i) =~= name);
    assert(core.skip(i + 1) =~= version);
    assert(version[0] != '/' && version[0] != '@');
    lemma_pnpm_core(slash, version, peers);
    lemma_find_char(version, '@');
    lemma_rfind_char(version, '/');
}

// ---------------------------------------------------------------------------
// Pipfile.lock
// ---------------------------------------------------------------------------

/// A section of a `Pipfile.lock` pins an entry: some field has its name, written in any way that
/// normalizes to it, and its version.
pub open spec fn section_pins(doc: Json, section: Seq<char>, e: Entry) -> bool {
    &&& doc.field(section) matches Some(Json::Record(fields))
    &&& exists|i: int|
        {
            &&& 0 <= i < fields.len()
            &&& normal_name((#[trigger] fields[i]).0) == e.name
            &&& fields[i].1.field("version"@) matches Some(Json::Text(raw))
            &&& pipfile_version(raw) == e.version
        }
}

/// A `Pipfile.lock` lists exactly what its two sections pin, where name and version are there.
pub proof fn law_pipfile_lists_both_sections(content: Seq<char>, doc: Json, e: Entry)
    requires
        json_document(content) == Some(doc),
    ensures
        listed(LockfileKind::PyPipfileLock, content) is Some,
        listed(LockfileKind::PyPipfileLock, content)->Some_0.contains(e) <==> e.ecosystem is Pypi && valid_name(
            e.name,
        ) && e.version.len() > 0 && (section_pins(doc, "default"@, e) || section_pins(doc, "develop"@, e)),
{
    lemma_in_either(pipfile_section(doc, "default"@), pipfile_section(doc, "develop"@), e);
    lemma_section(doc, "default"@, e);
    lemma_section(doc, "develop"@, e);
}

proof fn lemma_section(doc: Json, section: Seq<char>, e: Entry)
    ensures
        pipfile_section(doc, section).contains(e) <==> e.ecosystem is Pypi && valid_name(e.name) && e.version.len()
            > 0 && section_pins(doc, section, e),
{
    if doc.field_fields(section) is Some {
        let fields = doc.field_fields(section)->Some_0;
        law_entry_is_read_iff_some_item_gives_it(fields, pipfile_rule(), e);
        assert forall|i: int| 0 <= i < fields.len() implies (pipfile_rule()(#[trigger] fields[i]) == Some(e) <==> {
            &&& e.ecosystem is Pypi
            &&& valid_name(e.name)
            &&& e.version.len() > 0
            &&& normal_name(fields[i].0) == e.name
            &&& fields[i].1.field("version"@) matches Some(Json::Text(raw))
            &&& pipfile_version(raw) == e.version
        }) by {}
    }
}

/// A pin gives the version behind `==`, without the white space around it; a version without an
/// operator gives itself.
pub proof fn law_pipfile_pin_gives_its_version(
    a: Seq<char>,
    gap: Seq<char>,
    version: Seq<char>,
    b: Seq<char>,
)
    requires
        all_space(a) && all_space(gap) && all_space(b),
        is_bare(version),
        version[0] != '=',
    ensures
        pipfile_version(a + ("=="@ + gap + version) + b) == version,
        pipfile_version(a + version + b) == version,
{
    reveal_strlit("==");
    reveal_strlit("===");
    let pin = "=="@ + gap + version;
    let rest = gap + version;
    assert(pin.last() == version.last());
    law_trim_gives_back_bare_text(a, pin, b);
    law_trim_gives_back_bare_text(a, version, b);
    law_trim_gives_back_bare_text(gap, version, Seq::empty());
    assert("=="@.is_prefix_of(pin)) by {
        assert(pin.subrange(0, 2) =~= "=="@);
    }
    assert(pin.skip(2) =~= rest);
    assert(rest[0] != '=') by {
        if gap.len() > 0 {
            assert(is_space(gap[0]));
        }
    }
    lemma_no_operator(rest);
    lemma_no_operator(version);
}

proof fn lemma_no_operator(s: Seq<char>)
    requires
        s.len() > 0,
        s[0] != '=',
    ensures
        trim_start_text(s, "=="@) == s,
        trim_start_text(s, "==="@) == s,
{
    reveal_strlit("==");
    reveal_strlit("===");
    if "=="@.is_prefix_of(s) {
        assert("=="@[0] == s[0]);
    }
    if "==="@.is_prefix_of(s) {
        assert("==="@[0] == s[0]);
    }
}

// ---------------------------------------------------------------------------
// Lockfiles in TOML
// ---------------------------------------------------------------------------

/// The source of a package is a registry: none is given, or one with an empty type or the type
/// `legacy`, or one without a type that names its registry.
pub open spec fn is_from_registry(pkg: Toml) -> bool {
    match pkg.field("source"@) {
        None => true,
        Some(source) => match source.field("type"@) {
            Some(Toml::Text(t)) => t.len() == 0 || t == "legacy"@,
            _ => source.field("registry"@) is Some,
        },
    }
}

/// A `poetry.lock`, a `uv.lock` and a `pdm.lock` list exactly the packages that have a name and a
/// version and that come from a registry, whatever else is said of them.
pub proof fn law_python_lock_lists_its_packages(
    kind: LockfileKind,
    content: Seq<char>,
    doc: Toml,
    packages: Seq<Toml>,
    e: Entry,
)
    requires
        kind is PyPoetryLock || kind is PyUvLock || kind is PyPdmLock,
        toml_document(content) == Some(doc),
        doc.field("package"@) == Some(Toml::List(packages)),
    ensures
        listed(kind, content) is Some,
        listed(kind, content)->Some_0.contains(e) <==> e.ecosystem is Pypi && valid_name(e.name) && exists|i: int|
            {
                &&& 0 <= i < packages.len()
                &&& (#[trigger] packages[i]).field("name"@) matches Some(Toml::Text(raw))
                &&& normal_name(raw) == e.name
                &&& packages[i].field("version"@) == Some(Toml::Text(e.version))
                &&& is_from_registry(packages[i])
            },
{
    reveal_strlit("");
    law_entry_is_read_iff_some_item_gives_it(packages, python_rule(), e);
    assert forall|i: int| 0 <= i < packages.len() implies (python_rule()(#[trigger] packages[i]) == Some(e) <==> {
        &&& e.ecosystem is Pypi
        &&& valid_name(e.name)
        &&& packages[i].field("name"@) matches Some(Toml::Text(raw))
        &&& normal_name(raw) == e.name
        &&& packages[i].field("version"@) == Some(Toml::Text(e.version))
        &&& is_from_registry(packages[i])
    }) by {
        match packages[i].field("source"@) {
            Some(source) => match source.field("type"@) {
                Some(Toml::Text(t)) => {
                    assert(t.len() == 0 ==> t =~= ""@);
                },
                _ => {},
            },
            None => {},
        }
    }
}

/// A `Cargo.lock` lists exactly the packages that have a name and a version and whose source is a
/// registry, behind `registry+` or `sparse+`, whatever else is said of them.
pub proof fn law_cargo_lock_lists_its_packages(
    content: Seq<char>,
    doc: Toml,
    packages: Seq<Toml>,
    e: Entry,
)
    requires
        toml_document(content) == Some(doc),
        doc.field("package"@) == Some(Toml::List(packages)),
    ensures
        listed(LockfileKind::Cargo, content) is Some,
        listed(LockfileKind::Cargo, content)->Some_0.contains(e) <==> e.ecosystem is Cargo && exists|i: int|
            {
                &&& 0 <= i < packages.len()
                &&& (#[trigger] packages[i]).field("name"@) == Some(Toml::Text(e.name))
                &&& packages[i].field("version"@) == Some(Toml::Text(e.version))
                &&& packages[i].field("source"@) matches Some(Toml::Text(source))
                &&& "registry+"@.is_prefix_of(source) || "sparse+"@.is_prefix_of(source)
            },
{
    law_entry_is_read_iff_some_item_gives_it(packages, cargo_rule(), e);
    assert forall|i: int| 0 <= i < packages.len() implies (cargo_rule()(#[trigger] packages[i]) == Some(e) <==> {
        &&& e.ecosystem is Cargo
        &&& packages[i].field("name"@) == Some(Toml::Text(e.name))
        &&& packages[i].field("version"@) == Some(Toml::Text(e.version))
        &&& packages[i].field("source"@) matches Some(Toml::Text(source))
        &&& "registry+"@.is_prefix_of(source) || "sparse+"@.is_prefix_of(source)
    }) by {}
}

// ---------------------------------------------------------------------------
// NuGet
// ---------------------------------------------------------------------------

proof fn lemma_under_frameworks(
    frameworks: Seq<(Seq<char>, Json)>,
    rule: spec_fn((Seq<char>, Json)) -> Option<Entry>,
    n: nat,
    e: Entry,
)
    requires
        n <= frameworks.len(),
    ensures
        under_frameworks(frameworks, rule, n).contains(e) <==> exists|f: int|
            0 <= f < n && reads((#[trigger] frameworks[f]).1, rule, e),
    decreases n,
{
    if n > 0 {
        lemma_under_frameworks(frameworks, rule, (n - 1) as nat, e);
        let last = match frameworks[n - 1].1.fields() {
            Some(fields) => each(fields, rule),
            None => Seq::empty(),
        };
        lemma_in_either(under_frameworks(frameworks, rule, (n - 1) as nat), last, e);
        match frameworks[n - 1].1.fields() {
            Some(fields) => law_entry_is_read_iff_some_item_gives_it(fields, rule, e),
            None => {},
        }
        assert(last.contains(e) <==> reads(frameworks[n - 1].1, rule, e));
    }
}

/// `rule` reads an entry in some field of a record.
pub open spec fn reads(record: Json, rule: spec_fn((Seq<char>, Json)) -> Option<Entry>, e: Entry) -> bool {
    &&& record matches Json::Record(fields)
    &&& exists|i: int| 0 <= i < fields.len() && rule(#[trigger] fields[i]) == Some(e)
}

/// A framework resolves a package: a field has its name as the key and its version as `resolved`,
/// and is no project.
pub open spec fn framework_resolves(framework: Json, e: Entry) -> bool {
    &&& framework matches Json::Record(fields)
    &&& exists|i: int|
        {
            &&& 0 <= i < fields.len()
            &&& (#[trigger] fields[i]).0 == e.name
            &&& fields[i].1.field("resolved"@) == Some(Json::Text(e.version))
            &&& fields[i].1.field("type"@) != Some(Json::Text("Project"@))
        }
}

/// A `packages.lock.json` lists exactly the packages that some framework resolves, direct and
/// transitive ones alike.
pub proof fn law_nuget_lock_lists_what_is_resolved(
    content: Seq<char>,
    doc: Json,
    frameworks: Seq<(Seq<char>, Json)>,
    e: Entry,
)
    requires
        json_document(content) == Some(doc),
        doc.field("dependencies"@) == Some(Json::Record(frameworks)),
    ensures
        listed(LockfileKind::NugetLock, content) is Some,
        listed(LockfileKind::NugetLock, content)->Some_0.contains(e) <==> e.ecosystem is Nuget && exists|f: int|
            0 <= f < frameworks.len() && framework_resolves((#[trigger] frameworks[f]).1, e),
{
    lemma_under_frameworks(frameworks, locked_rule(), frameworks.len(), e);
    assert forall|f: int| 0 <= f < frameworks.len() implies (reads((#[trigger] frameworks[f]).1, locked_rule(), e)
        <==> e.ecosystem is Nuget && framework_resolves(frameworks[f].1, e)) by {
        match frameworks[f].1 {
            Json::Record(fields) => {
                assert forall|i: int| 0 <= i < fields.len() implies (locked_rule()(#[trigger] fields[i]) == Some(e)
                    <==> {
                    &&& e.ecosystem is Nuget
                    &&& fields[i].0 == e.name
                    &&& fields[i].1.field("resolved"@) == Some(Json::Text(e.version))
                    &&& fields[i].1.field("type"@) != Some(Json::Text("Project"@))
                }) by {}
            },
            _ => {},
        }
    }
}

/// A target restores a package: a field has its name, a slash and its version as the key, and is
/// no project.
pub open spec fn target_restores(target: Json, e: Entry) -> bool {
    &&& target matches Json::Record(fields)
    &&& exists|i: int|
        {
            &&& 0 <= i < fields.len()
            &&& (#[trigger] fields[i]).0 == e.name + seq!['/'] + e.version
            &&& fields[i].1.field("type"@) != Some(Json::Text("project"@))
        }
}

/// A `project.assets.json` lists exactly the packages that some target restores.
pub proof fn law_nuget_assets_list_what_is_restored(
    content: Seq<char>,
    doc: Json,
    targets: Seq<(Seq<char>, Json)>,
    e: Entry,
)
    requires
        json_document(content) == Some(doc),
        doc.field("targets"@) == Some(Json::Record(targets)),
    ensures
        listed(LockfileKind::NugetAssets, content) is Some,
        listed(LockfileKind::NugetAssets, content)->Some_0.contains(e) <==> e.ecosystem is Nuget && lacks(
            e.name,
            '/',
        ) && exists|f: int| 0 <= f < targets.len() && target_restores((#[trigger] targets[f]).1, e),
{
    lemma_under_frameworks(targets, resolved_rule(), targets.len(), e);
    assert forall|f: int| 0 <= f < targets.len() implies (reads((#[trigger] targets[f]).1, resolved_rule(), e)
        <==> e.ecosystem is Nuget && lacks(e.name, '/') && target_restores(targets[f].1, e)) by {
        match targets[f].1 {
            Json::Record(fields) => {
                assert forall|i: int| 0 <= i < fields.len() implies (resolved_rule()(#[trigger] fields[i]) == Some(e)
                    <==> {
                    &&& e.ecosystem is Nuget
                    &&& lacks(e.name, '/')
                    &&& fields[i].0 == e.name + seq!['/'] + e.version
                    &&& fields[i].1.field("type"@) != Some(Json::Text("project"@))
                }) by {
                    let key = fields[i].0;
                    lemma_find_char(key, '/');
                    if key == e.name + seq!['/'] + e.version && lacks(e.name, '/') {
                        lemma_first_char(e.name, '/', e.version);
                    }
                    if find_char(key, '/') is Some {
                        let k = find_char(key, '/').unwrap();
                        assert(key =~= key.take(k) + seq!['/'] + key.skip(k + 1));
                        assert(lacks(key.take(k), '/'));
                    }
                }
            },
            _ => {},
        }
    }
}

// ---------------------------------------------------------------------------
// composer.lock
// ---------------------------------------------------------------------------

/// A list of a `composer.lock` pins a release: some item has its name and its version, is no
/// metapackage, and the version is no branch.
pub open spec fn list_pins(doc: Json, key: Seq<char>, e: Entry) -> bool {
    &&& doc.field(key) matches Some(Json::List(items))
    &&& exists|i: int|
        {
            &&& 0 <= i < items.len()
            &&& (#[trigger] items[i]).field("name"@) == Some(Json::Text(e.name))
            &&& items[i].field("version"@) == Some(Json::Text(e.version))
            &&& items[i].field("type"@) != Some(Json::Text("metapackage"@))
        }
}

/// A `composer.lock` lists exactly the releases that its two lists pin, those for development too.
pub proof fn law_composer_lock_lists_both_lists(content: Seq<char>, doc: Json, e: Entry)
    requires
        json_document(content) == Some(doc),
    ensures
        listed(LockfileKind::Composer, content) is Some,
        listed(LockfileKind::Composer, content)->Some_0.contains(e) <==> e.ecosystem is Composer
            && !"dev-"@.is_prefix_of(e.version) && (list_pins(doc, "packages"@, e) || list_pins(
            doc,
            "packages-dev"@,
            e,
        )),
{
    lemma_in_either(composer_list(doc, "packages"@), composer_list(doc, "packages-dev"@), e);
    lemma_composer_list(doc, "packages"@, e);
    lemma_composer_list(doc, "packages-dev"@, e);
}

proof fn lemma_composer_list(doc: Json, key: Seq<char>, e: Entry)
    ensures
        composer_list(doc, key).contains(e) <==> e.ecosystem is Composer && !"dev-"@.is_prefix_of(e.version)
            && list_pins(doc, key, e),
{
    if doc.field_items(key) is Some {
        let items = doc.field_items(key)->Some_0;
        law_entry_is_read_iff_some_item_gives_it(items, composer_rule(), e);
        assert forall|i: int| 0 <= i < items.len() implies (composer_rule()(#[trigger] items[i]) == Some(e) <==> {
            &&& e.ecosystem is Composer
            &&& !"dev-"@.is_prefix_of(e.version)
            &&& items[i].field("name"@) == Some(Json::Text(e.name))
            &&& items[i].field("version"@) == Some(Json::Text(e.version))
            &&& items[i].field("type"@) != Some(Json::Text("metapackage"@))
        }) by {}
    }
}

// ---------------------------------------------------------------------------
// Documents without packages
// ---------------------------------------------------------------------------

/// A document that lacks the part in which its format lists packages lists none, and is no error.
pub proof fn law_document_without_packages_lists_nothing(content: Seq<char>)
    ensures
        json_document(content) matches Some(doc) ==> {
            &&& doc.field("packages"@) is None && doc.field("dependencies"@) is None ==> listed(
                LockfileKind::Npm,
                content,
            ) == Some(Seq::<Entry>::empty())
            &&& doc.field("dependencies"@) is None ==> listed(LockfileKind::NugetLock, content) == Some(
                Seq::<Entry>::empty(),
            )
            &&& doc.field("targets"@) is None ==> listed(LockfileKind::NugetAssets, content) == Some(
                Seq::<Entry>::empty(),
            )
        },
        yaml_document(content) matches Some(doc) ==> doc.field("packages"@) is None ==> listed(
            LockfileKind::Pnpm,
            content,
        ) == Some(Seq::<Entry>::empty()),
        toml_document(content) matches Some(doc) ==> doc.field("package"@) is None ==> {
            &&& listed(LockfileKind::PyPoetryLock, content) == Some(Seq::<Entry>::empty())
            &&& listed(LockfileKind::PyUvLock, content) == Some(Seq::<Entry>::empty())
            &&& listed(LockfileKind::PyPdmLock, content) == Some(Seq::<Entry>::empty())
            &&& listed(LockfileKind::Cargo, content) == Some(Seq::<Entry>::empty())
        },
{
}

/// A content that is no document of the syntax of its format is refused.
pub proof fn law_content_in_another_syntax_is_refused(kind: LockfileKind, content: Seq<char>)
    ensures
        listed(kind, content) is None <==> match kind {
            LockfileKind::Npm
            | LockfileKind::PyPipfileLock
            | LockfileKind::NugetLock
            | LockfileKind::NugetAssets
            | LockfileKind::Composer => json_document(content) is None,
            LockfileKind::Pnpm => yaml_document(content) is None,
            LockfileKind::PyPoetryLock | LockfileKind::PyUvLock | LockfileKind::PyPdmLock | LockfileKind::Cargo =>
                toml_document(content) is None,
            _ => false,
        },
{
}

} // verus!
