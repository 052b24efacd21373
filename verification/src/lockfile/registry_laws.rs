//! Which lockfile a name tells, which entries the service can act on, and what parsing hands out.
use vstd::prelude::*;

use crate::entry::{entries, strictly_sorted, Entry, LockfileEntry};
use crate::lockfile::pypi::{is_name_char, is_separator, normal_name, valid_name};
use crate::lockfile::{
    detected, document_of, is_berry, kind_of, listed, on_registry, parsed, readable, LockfileError, LockfileKind,
    SyntaxCause, SUPPORTED_NAMES, YARN_BERRY_HINT,
};
use crate::text::{ascii_lower, find, lemma_find, match_at};
use crate::text_laws::{lacks, lemma_stands};

verus! {

// ---------------------------------------------------------------------------
// Names of files
// ---------------------------------------------------------------------------

/// Each format is told by its names and by no other.
pub proof fn law_format_is_told_by_name(name: Seq<char>)
    ensures
        kind_of(name) == Some(LockfileKind::Npm) <==> name == "package-lock.json"@ || name == "npm-shrinkwrap.json"@,
        kind_of(name) == Some(LockfileKind::Pnpm) <==> name == "pnpm-lock.yaml"@ || name == "pnpm-lock.yml"@,
        kind_of(name) == Some(LockfileKind::YarnV1) <==> name == "yarn.lock"@,
        kind_of(name) == Some(LockfileKind::PyRequirements) <==> name == "requirements.txt"@ || name
            == "requirements.lock"@ || name == "constraints.txt"@,
        kind_of(name) == Some(LockfileKind::PyPipfileLock) <==> name == "pipfile.lock"@,
        kind_of(name) == Some(LockfileKind::PyPoetryLock) <==> name == "poetry.lock"@,
        kind_of(name) == Some(LockfileKind::PyUvLock) <==> name == "uv.lock"@,
        kind_of(name) == Some(LockfileKind::PyPdmLock) <==> name == "pdm.lock"@,
        kind_of(name) == Some(LockfileKind::Gemfile) <==> name == "gemfile.lock"@ || name == "gems.locked"@,
        kind_of(name) == Some(LockfileKind::Cargo) <==> name == "cargo.lock"@,
        kind_of(name) == Some(LockfileKind::Pom) <==> name == "pom.xml"@,
        kind_of(name) == Some(LockfileKind::NugetLock) <==> name == "packages.lock.json"@,
        kind_of(name) == Some(LockfileKind::NugetConfig) <==> name == "packages.config"@,
        kind_of(name) == Some(LockfileKind::NugetAssets) <==> name == "project.assets.json"@,
        kind_of(name) == Some(LockfileKind::Composer) <==> name == "composer.lock"@,
{
    reveal_strlit("package-lock.json");
    reveal_strlit("npm-shrinkwrap.json");
    reveal_strlit("pnpm-lock.yaml");
    reveal_strlit("pnpm-lock.yml");
    reveal_strlit("yarn.lock");
    reveal_strlit("requirements.txt");
    reveal_strlit("requirements.lock");
    reveal_strlit("constraints.txt");
    reveal_strlit("pipfile.lock");
    reveal_strlit("poetry.lock");
    reveal_strlit("uv.lock");
    reveal_strlit("pdm.lock");
    reveal_strlit("gemfile.lock");
    reveal_strlit("gems.locked");
    reveal_strlit("cargo.lock");
    reveal_strlit("pom.xml");
    reveal_strlit("packages.lock.json");
    reveal_strlit("packages.config");
    reveal_strlit("project.assets.json");
    reveal_strlit("composer.lock");
    assert("package-lock.json"@.len() == 17 && "npm-shrinkwrap.json"@.len() == 19);
    assert("pnpm-lock.yaml"@.len() == 14 && "pnpm-lock.yml"@.len() == 13);
    assert("yarn.lock"@.len() == 9 && "requirements.txt"@.len() == 16);
    assert("requirements.lock"@.len() == 17 && "constraints.txt"@.len() == 15);
    assert("pipfile.lock"@.len() == 12 && "poetry.lock"@.len() == 11);
    assert("uv.lock"@.len() == 7 && "pdm.lock"@.len() == 8);
    assert("gemfile.lock"@.len() == 12 && "gems.locked"@.len() == 11);
    assert("cargo.lock"@.len() == 10 && "pom.xml"@.len() == 7);
    assert("packages.lock.json"@.len() == 18 && "packages.config"@.len() == 15);
    assert("project.assets.json"@.len() == 19 && "composer.lock"@.len() == 13);
    // What tells names of the same length apart.
    assert("package-lock.json"@[0] == 'p' && "requirements.lock"@[0] == 'r');
    assert("npm-shrinkwrap.json"@[0] == 'n' && "project.assets.json"@[0] == 'p');
    assert("constraints.txt"@[0] == 'c' && "packages.config"@[0] == 'p');
    assert("pipfile.lock"@[0] == 'p' && "gemfile.lock"@[0] == 'g');
    assert("poetry.lock"@[0] == 'p' && "gems.locked"@[0] == 'g');
    assert("yarn.lock"@[0] == 'y');
    assert("pnpm-lock.yml"@[0] == 'p' && "composer.lock"@[0] == 'c');
    assert("uv.lock"@[0] == 'u' && "pom.xml"@[0] == 'p');
    assert("pdm.lock"@[0] == 'p');
    assert("cargo.lock"@[0] == 'c');
}

/// A `yarn.lock` is one of Yarn Berry if and only if it has the key `__metadata:` somewhere.
pub proof fn law_berry_is_told_by_its_metadata(content: Seq<char>)
    ensures
        is_berry(content) <==> exists|a: Seq<char>, b: Seq<char>| content == #[trigger] (a + "__metadata:"@ + b),
{
    let p = "__metadata:"@;
    lemma_find(content, p);
    if is_berry(content) {
        let i = find(content, p).unwrap();
        assert(content =~= content.take(i) + p + content.skip(i + p.len())) by {
            assert(content.subrange(i, i + p.len()) == p);
        }
    }
    if exists|a: Seq<char>, b: Seq<char>| content == #[trigger] (a + p + b) {
        let (a, b) = choose|a: Seq<char>, b: Seq<char>| content == #[trigger] (a + p + b);
        lemma_stands(a, p, b);
        assert(match_at(content, p, a.len() as int));
    }
}

// ---------------------------------------------------------------------------
// Entries
// ---------------------------------------------------------------------------

/// A version that names a release and no place: it begins with a digit and has no slash.
pub open spec fn is_plain_release(version: Seq<char>) -> bool {
    version.len() > 0 && '0' <= version[0] <= '9' && lacks(version, '/')
}

/// A text with a slash has one at some position.
proof fn lemma_contains(s: Seq<char>, c: char)
    ensures
        s.contains(c) <==> !lacks(s, c),
{
    if s.contains(c) {
        let i = choose|i: int| 0 <= i < s.len() && s[i] == c;
        assert(s[i] == c);
    }
    if !lacks(s, c) {
        let i = choose|i: int| 0 <= i < s.len() && #[trigger] s[i] == c;
        assert(s.contains(s[i]));
    }
}

/// The service can act on every release of a named package, of whatever ecosystem: a Maven name
/// has group and artifact, and a Python or Ruby name no slash.
pub proof fn law_releases_can_be_acted_on(e: Entry)
    requires
        e.name.len() > 0,
        is_plain_release(e.version),
        e.ecosystem is Maven ==> e.name.contains(':'),
        e.ecosystem is Pypi || e.ecosystem is Rubygems ==> lacks(e.name, '/'),
    ensures
        on_registry(e),
{
    reveal_strlit("file:");
    reveal_strlit("link:");
    reveal_strlit("workspace:");
    reveal_strlit("git+");
    reveal_strlit("github:");
    reveal_strlit("npm:");
    reveal_strlit("http://");
    reveal_strlit("https://");
    reveal_strlit("${");
    let v = e.version;
    lemma_contains(v, '/');
    lemma_contains(e.name, '/');
    lemma_first_is(v, "file:"@);
    lemma_first_is(v, "link:"@);
    lemma_first_is(v, "workspace:"@);
    lemma_first_is(v, "git+"@);
    lemma_first_is(v, "github:"@);
    lemma_first_is(v, "npm:"@);
    lemma_first_is(v, "http://"@);
    lemma_first_is(v, "https://"@);
    lemma_first_is(v, "${"@);
}

/// A text begins with the first character of what it begins with.
proof fn lemma_first_is(v: Seq<char>, p: Seq<char>)
    requires
        p.len() > 0,
    ensures
        p.is_prefix_of(v) ==> v.len() > 0 && v[0] == p[0],
{
}

/// Packages of crates.io, NuGet and Packagist can be acted on whatever their version looks like.
pub proof fn law_named_versions_can_be_acted_on(e: Entry)
    requires
        e.ecosystem is Cargo || e.ecosystem is Nuget || e.ecosystem is Composer,
    ensures
        on_registry(e) <==> e.name.len() > 0 && e.version.len() > 0,
{
}

/// What has no name or no version cannot be acted on, nor can a version that points elsewhere: to
/// a file, a link, a workspace, a repository, an alias or an address.
pub proof fn law_references_cannot_be_acted_on(e: Entry, rest: Seq<char>)
    ensures
        e.name.len() == 0 || e.version.len() == 0 ==> !on_registry(e),
        e.ecosystem is Npm && (e.version == "file:"@ + rest || e.version == "link:"@ + rest || e.version
            == "workspace:"@ + rest || e.version == "git+"@ + rest || e.version == "github:"@ + rest || e.version
            == "npm:"@ + rest || !lacks(e.version, '/')) ==> !on_registry(e),
        e.ecosystem is Pypi && (e.version == "git+"@ + rest || e.version == "file:"@ + rest || e.version
            == "http://"@ + rest || e.version == "https://"@ + rest || !lacks(e.name, '/')) ==> !on_registry(e),
        e.ecosystem is Rubygems && !lacks(e.name, '/') ==> !on_registry(e),
        e.ecosystem is Maven && (e.version == "${"@ + rest || e.version == seq!['['] + rest || e.version == seq!['(']
            + rest || lacks(e.name, ':')) ==> !on_registry(e),
{
    lemma_contains(e.version, '/');
    lemma_contains(e.name, '/');
    lemma_contains(e.name, ':');
    lemma_begins("file:"@, rest);
    lemma_begins("link:"@, rest);
    lemma_begins("workspace:"@, rest);
    lemma_begins("git+"@, rest);
    lemma_begins("github:"@, rest);
    lemma_begins("npm:"@, rest);
    lemma_begins("http://"@, rest);
    lemma_begins("https://"@, rest);
    lemma_begins("${"@, rest);
}

proof fn lemma_begins(p: Seq<char>, rest: Seq<char>)
    ensures
        p.is_prefix_of(p + rest),
{
    assert((p + rest).subrange(0, p.len() as int) =~= p);
}

/// What a version of npm points to is told by its front alone: one that begins otherwise and has
/// no slash can be acted on.
pub proof fn law_npm_version_is_told_by_its_front(e: Entry)
    requires
        e.ecosystem is Npm,
        e.name.len() > 0 && e.version.len() > 0,
        lacks(e.version, '/'),
        lacks(e.version, ':') && lacks(e.version, '+'),
    ensures
        on_registry(e),
{
    reveal_strlit("file:");
    reveal_strlit("link:");
    reveal_strlit("workspace:");
    reveal_strlit("git+");
    reveal_strlit("github:");
    reveal_strlit("npm:");
    lemma_contains(e.version, '/');
    let v = e.version;
    lemma_has(v, "file:"@, 4);
    lemma_has(v, "link:"@, 4);
    lemma_has(v, "workspace:"@, 9);
    lemma_has(v, "git+"@, 3);
    lemma_has(v, "github:"@, 6);
    lemma_has(v, "npm:"@, 3);
}

/// So it is for the others: a gem by its name alone, a Python version that begins as no address,
/// and a Maven version that begins as no property and no range.
pub proof fn law_other_versions_are_told_by_their_front(e: Entry)
    requires
        e.name.len() > 0 && e.version.len() > 0,
    ensures
        e.ecosystem is Rubygems ==> (on_registry(e) <==> lacks(e.name, '/')),
        e.ecosystem is Pypi && lacks(e.name, '/') && lacks(e.version, ':') && lacks(e.version, '+') ==> on_registry(
            e,
        ),
        e.ecosystem is Maven && !lacks(e.name, ':') && e.version[0] != '$' && e.version[0] != '[' && e.version[0]
            != '(' ==> on_registry(e),
{
    reveal_strlit("file:");
    reveal_strlit("git+");
    reveal_strlit("http://");
    reveal_strlit("https://");
    reveal_strlit("${");
    let v = e.version;
    lemma_contains(e.name, '/');
    lemma_contains(e.name, ':');
    lemma_first_is(v, "${"@);
    if lacks(v, ':') && lacks(v, '+') {
        lemma_has(v, "file:"@, 4);
        lemma_has(v, "git+"@, 3);
        lemma_has(v, "http://"@, 4);
        lemma_has(v, "https://"@, 5);
    }
}

/// A text has each character of what it begins with.
proof fn lemma_has(v: Seq<char>, p: Seq<char>, i: int)
    requires
        0 <= i < p.len(),
        lacks(v, p[i]),
    ensures
        !p.is_prefix_of(v),
{
    if p.is_prefix_of(v) {
        assert(v[i] == p[i]);
    }
}

// ---------------------------------------------------------------------------
// Parsing
// ---------------------------------------------------------------------------

/// What parsing hands out has exactly those entries that the file lists and that the service can
/// act on, in order and each once.
pub proof fn law_parsing_hands_out_what_can_be_acted_on(
    name: Seq<char>,
    content: Seq<char>,
    v: Vec<LockfileEntry>,
    e: Entry,
)
    requires
        parsed(name, content, Ok(v)),
    ensures
        readable(name, content) is Some,
        entries(v@).contains(e) <==> readable(name, content)->Some_0.contains(e) && on_registry(e),
        strictly_sorted(entries(v@)),
{
}

/// Parsing fails if and only if the file cannot be read: a name that no format has, a `yarn.lock`
/// of Yarn Berry, or a content in another syntax. The error tells which, and of which document.
pub proof fn law_parsing_fails_iff_file_cannot_be_read(
    name: Seq<char>,
    content: Seq<char>,
    r: Result<Vec<LockfileEntry>, LockfileError>,
)
    requires
        parsed(name, content, r),
    ensures
        r is Err <==> readable(name, content) is None,
        readable(name, content) is None <==> kind_of(name) is None || (kind_of(name)->Some_0 is YarnV1
            && is_berry(content)) || listed(kind_of(name)->Some_0, content) is None,
        r matches Err(LockfileError::UnknownName(n)) ==> kind_of(name) is None && n@ == name,
        r is Err && r->Err_0 is YarnBerry ==> kind_of(name) == Some(LockfileKind::YarnV1) && is_berry(content),
        r matches Err(LockfileError::Syntax(d, _)) ==> kind_of(name) is Some && d == document_of(
            kind_of(name)->Some_0,
        ),
{
}

/// Telling the format of a file fails where its name is unknown or it is one of Yarn Berry, and
/// gives the format of its name otherwise, whatever else its content is.
pub proof fn law_detection_agrees_with_the_name(
    name: Seq<char>,
    content: Seq<char>,
    r: Result<LockfileKind, LockfileError>,
)
    requires
        detected(name, content, r),
    ensures
        r matches Ok(kind) ==> kind_of(name) == Some(kind) && !(kind is YarnV1 && is_berry(content)),
        r is Err ==> kind_of(name) is None || kind_of(name) == Some(LockfileKind::YarnV1) && is_berry(content),
        r matches Err(LockfileError::UnknownName(n)) ==> n@ == name,
{
}

/// A refused document is told by what was being read; an unknown name is quoted with the names
/// that are known, and a lockfile of Yarn Berry comes with a hint.
pub proof fn law_error_tells_what_was_read(kind: LockfileKind, name: String, cause: SyntaxCause)
    ensures
        kind is Npm ==> LockfileError::Syntax(document_of(kind), cause).text() == "parsing package-lock.json"@,
        kind is Pnpm ==> LockfileError::Syntax(document_of(kind), cause).text() == "parsing pnpm-lock.yaml"@,
        kind is PyPipfileLock ==> LockfileError::Syntax(document_of(kind), cause).text() == "parsing Pipfile.lock"@,
        kind is PyPoetryLock || kind is PyUvLock || kind is PyPdmLock ==> LockfileError::Syntax(
            document_of(kind),
            cause,
        ).text() == "parsing TOML lockfile"@,
        kind is Cargo ==> LockfileError::Syntax(document_of(kind), cause).text() == "parsing Cargo.lock"@,
        kind is NugetLock ==> LockfileError::Syntax(document_of(kind), cause).text()
            == "parsing packages.lock.json"@,
        kind is NugetAssets ==> LockfileError::Syntax(document_of(kind), cause).text()
            == "parsing project.assets.json"@,
        kind is Composer ==> LockfileError::Syntax(document_of(kind), cause).text() == "parsing composer.lock"@,
        LockfileError::UnknownName(name).text() == "unrecognised lockfile name `"@ + name@ + "`. Supported: "@
            + SUPPORTED_NAMES@,
        LockfileError::YarnBerry.text() == YARN_BERRY_HINT@,
{
}

// ---------------------------------------------------------------------------
// Names of PyPI
// ---------------------------------------------------------------------------

/// A name is valid if and only if it is not empty and each of its characters is an ASCII letter, a
/// digit, an underscore, a dot or a hyphen.
pub proof fn law_valid_name_has_plain_characters(name: Seq<char>)
    ensures
        valid_name(name) <==> name.len() > 0 && forall|i: int|
            0 <= i < name.len() ==> ('a' <= #[trigger] name[i] <= 'z' || 'A' <= name[i] <= 'Z' || '0' <= name[i]
                <= '9' || name[i] == '_' || name[i] == '.' || name[i] == '-'),
{
    if valid_name(name) {
        assert forall|i: int| 0 <= i < name.len() implies ('a' <= #[trigger] name[i] <= 'z' || 'A' <= name[i] <= 'Z'
            || '0' <= name[i] <= '9' || name[i] == '_' || name[i] == '.' || name[i] == '-') by {
            assert(is_name_char(name[i]));
        }
    }
}

/// The case of a letter does not matter, nor does which separator stands in a name: each gives the
/// same normal form.
pub proof fn law_case_and_separator_do_not_matter(a: Seq<char>, c: char, s: char, b: Seq<char>)
    requires
        !is_separator(c),
        is_separator(s),
    ensures
        normal_name(a + seq![c] + b) == normal_name(a + seq![ascii_lower(c)] + b),
        normal_name(a + seq![s] + b) == normal_name(a + seq!['-'] + b),
    decreases b.len(),
{
    let l = ascii_lower(c);
    assert(!is_separator(l));
    assert(ascii_lower(l) == l);
    if b.len() == 0 {
        let x = a + seq![c] + b;
        let y = a + seq![l] + b;
        assert(x.drop_last() =~= a && y.drop_last() =~= a);
        let p = a + seq![s] + b;
        let q = a + seq!['-'] + b;
        assert(p.drop_last() =~= a && q.drop_last() =~= a);
        if a.len() > 0 {
            assert(p[p.len() - 2] == a.last() && q[q.len() - 2] == a.last());
        }
    } else {
        let d = b.drop_last();
        law_case_and_separator_do_not_matter(a, c, s, d);
        let x = a + seq![c] + b;
        let y = a + seq![l] + b;
        let p = a + seq![s] + b;
        let q = a + seq!['-'] + b;
        assert(x.drop_last() =~= a + seq![c] + d && y.drop_last() =~= a + seq![l] + d);
        assert(p.drop_last() =~= a + seq![s] + d && q.drop_last() =~= a + seq!['-'] + d);
        if d.len() > 0 {
            assert(x[x.len() - 2] == d.last() && y[y.len() - 2] == d.last());
            assert(p[p.len() - 2] == d.last() && q[q.len() - 2] == d.last());
        } else {
            assert(x[x.len() - 2] == c && y[y.len() - 2] == l);
            assert(p[p.len() - 2] == s && q[q.len() - 2] == '-');
        }
    }
}

/// Lower case is told by the code: the capital letters move by 32, everything else stays.
pub proof fn law_only_capital_letters_are_lowered(c: char)
    ensures
        'A' <= c <= 'Z' ==> ascii_lower(c) as u32 == c as u32 + 32,
        !('A' <= c <= 'Z') ==> ascii_lower(c) == c,
{
}

} // verus!
