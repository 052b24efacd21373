//! pnpm: `pnpm-lock.yaml`.
use vstd::prelude::*;
use vstd::slice::slice_subrange;

use crate::entry::{entries, Ecosystem, Entry, LockfileEntry};
use crate::lockfile::{
    each, lemma_each_ends, lemma_each_next, push_some, Document, LockfileError, SyntaxCause,
};
use crate::text::{
    chars_of, contains_char, find_char, find_char_at, find_char_from, last_position_of, position_of, rfind_char,
    string_of, trim_end, trim_text_end,
};
use crate::yaml::{parse_yaml, yaml_document, yaml_views, Yaml, YamlValue};

verus! {

/// A package key without the slash in front and the peer information behind.
pub open spec fn pnpm_core(key: Seq<char>) -> Seq<char> {
    let bare = if key.len() > 0 && key[0] == '/' {
        key.skip(1)
    } else {
        key
    };
    match find_char(bare, '(') {
        Some(i) => trim_end(bare.take(i)),
        None => bare,
    }
}

/// The first `@` of a key that is not its first character, for a scoped name, or else the first
/// `@` of all.
pub open spec fn pnpm_at(core: Seq<char>) -> Option<int> {
    if core.len() > 0 && core[0] == '@' {
        find_char_from(core, '@', 1)
    } else {
        find_char(core, '@')
    }
}

/// Name and version of a key `name@version` or `@scope/name@version`.
pub open spec fn pnpm_modern(core: Seq<char>) -> Option<(Seq<char>, Seq<char>)> {
    match pnpm_at(core) {
        Some(i) => if 0 < i < core.len() - 1 && !core.skip(i + 1).contains('@') {
            Some((core.take(i), core.skip(i + 1)))
        } else {
            None
        },
        None => None,
    }
}

/// Name and version of a key `name/version`.
pub open spec fn pnpm_legacy(core: Seq<char>) -> Option<(Seq<char>, Seq<char>)> {
    match rfind_char(core, '/') {
        Some(i) => if 0 < i < core.len() - 1 {
            Some((core.take(i), core.skip(i + 1)))
        } else {
            None
        },
        None => None,
    }
}

/// Name and version in the key of a package.
pub open spec fn pnpm_key(key: Seq<char>) -> Option<(Seq<char>, Seq<char>)> {
    match pnpm_modern(pnpm_core(key)) {
        Some(parts) => Some(parts),
        None => pnpm_legacy(pnpm_core(key)),
    }
}

/// The package at a key. The version that the entry itself gives wins over the one in the key.
pub open spec fn pnpm_package(key: Yaml, value: Yaml) -> Option<Entry> {
    match key.text() {
        Some(k) => match pnpm_key(k) {
            Some((name, from_key)) => {
                let version = match value.field("version"@) {
                    Some(v) => match v.text() {
                        Some(t) => t,
                        None => from_key,
                    },
                    None => from_key,
                };
                Some(Entry { ecosystem: Ecosystem::Npm, name, version })
            },
            None => None,
        },
        None => None,
    }
}

/// `pnpm_package` as a rule on the fields of `packages`.
pub open spec fn pnpm_rule() -> spec_fn((Yaml, Yaml)) -> Option<Entry> {
    |f: (Yaml, Yaml)| pnpm_package(f.0, f.1)
}

/// The packages of a `pnpm-lock.yaml`.
pub open spec fn pnpm_entries(doc: Yaml) -> Seq<Entry> {
    match doc.field("packages"@) {
        Some(packages) => match packages.fields() {
            Some(fields) => each(fields, pnpm_rule()),
            None => Seq::empty(),
        },
        None => Seq::empty(),
    }
}

/// Cuts `core` at position `i` into name and version.
fn cut(core: &[char], i: usize) -> (r: (String, String))
    requires
        i < core@.len(),
    ensures
        r.0@ == core@.take(i as int),
        r.1@ == core@.skip(i + 1),
{
    assert(i < core.len());
    assert(core@.take(i as int) =~= core@.subrange(0, i as int));
    assert(core@.skip(i + 1) =~= core@.subrange(i + 1, core@.len() as int));
    (string_of(slice_subrange(core, 0, i)), string_of(slice_subrange(core, i + 1, core.len())))
}

/// Name and version in the key of a package: `name@version` or `@scope/name@version`, with or
/// without a slash in front and peer information behind, or the older `/name/version`.
pub fn parse_pnpm_package_key(key: &str) -> (r: Option<(String, String)>)
    ensures
        match r {
            Some((name, version)) => pnpm_key(key@) == Some((name@, version@)),
            None => pnpm_key(key@) is None,
        },
{
    let chars: Vec<char> = chars_of(key);
    let all: &[char] = chars.as_slice();
    let bare: &[char] = if all.len() > 0 && all[0] == '/' {
        assert(all@.skip(1) =~= all@.subrange(1, all@.len() as int));
        slice_subrange(all, 1, all.len())
    } else {
        all
    };
    let core: &[char] = match position_of(bare, '(') {
        Some(i) => {
            assert(bare@.take(i as int) =~= bare@.subrange(0, i as int));
            trim_text_end(slice_subrange(bare, 0, i))
        },
        None => bare,
    };
    assert(core@ == pnpm_core(key@));
    let at: Option<usize> = if core.len() > 0 && core[0] == '@' {
        find_char_at(core, '@', 1)
    } else {
        position_of(core, '@')
    };
    match at {
        Some(i) => {
            if i > 0 && i < core.len() - 1 {
                assert(core@.skip(i + 1) =~= core@.subrange(i + 1, core@.len() as int));
                if !contains_char(slice_subrange(core, i + 1, core.len()), '@') {
                    return Some(cut(core, i));
                }
            }
        },
        None => {},
    }
    match last_position_of(core, '/') {
        Some(i) => {
            if i > 0 && i < core.len() - 1 {
                Some(cut(core, i))
            } else {
                None
            }
        },
        None => None,
    }
}

/// Reads one field of `packages`.
fn read_package(key: &YamlValue, value: &YamlValue) -> (r: Option<LockfileEntry>)
    ensures
        match r {
            Some(e) => pnpm_package(key@, value@) == Some(e@),
            None => pnpm_package(key@, value@) is None,
        },
{
    match key.as_str() {
        Some(k) => match parse_pnpm_package_key(k.as_str()) {
            Some((name, from_key)) => {
                let version: String = match value.get("version") {
                    Some(v) => match v.as_str() {
                        Some(t) => t.clone(),
                        None => from_key,
                    },
                    None => from_key,
                };
                Some(LockfileEntry { ecosystem: Ecosystem::Npm, name, version })
            },
            None => None,
        },
        None => None,
    }
}

/// The packages of a `pnpm-lock.yaml` that was read.
pub fn entries_of_pnpm(doc: &YamlValue) -> (r: Vec<LockfileEntry>)
    ensures
        entries(r@) == pnpm_entries(doc@),
{
    let mut out: Vec<LockfileEntry> = Vec::new();
    assert(entries(out@) =~= Seq::empty());
    match doc.get("packages") {
        Some(packages) => match packages.as_mapping() {
            Some(fields) => {
                let ghost all = yaml_views(fields@);
                proof {
                    lemma_each_ends(all, pnpm_rule());
                }
                let mut i: usize = 0;
                while i < fields.len()
                    invariant
                        i <= fields.len(),
                        all == yaml_views(fields@),
                        entries(out@) == each(all.take(i as int), pnpm_rule()),
                    decreases fields.len() - i,
                {
                    proof {
                        lemma_each_next(all, pnpm_rule(), i as int);
                    }
                    let e: Option<LockfileEntry> = read_package(&fields[i].0, &fields[i].1);
                    push_some(&mut out, e);
                    i += 1;
                }
            },
            None => {},
        },
        None => {},
    }
    out
}

/// Parse a `pnpm-lock.yaml`.
pub fn parse_pnpm(content: &str) -> (r: Result<Vec<LockfileEntry>, LockfileError>)
    ensures
        match r {
            Ok(v) => yaml_document(content@) matches Some(doc) && entries(v@) == pnpm_entries(doc),
            Err(e) => yaml_document(content@) is None && e matches LockfileError::Syntax(
                Document::PnpmLock,
                SyntaxCause::Yaml(_),
            ),
        },
{
    match parse_yaml(content) {
        Ok(doc) => Ok(entries_of_pnpm(&doc)),
        Err(e) => Err(LockfileError::Syntax(Document::PnpmLock, SyntaxCause::Yaml(e))),
    }
}

} // verus!
