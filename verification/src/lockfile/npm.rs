//! npm: `package-lock.json` v1/v2/v3 and `npm-shrinkwrap.json`.
use vstd::prelude::*;

use crate::entry::{entries, Ecosystem, Entry, LockfileEntry};
use crate::json::{field_index, field_views, json_document, lemma_field_index, parse_json, Json, JsonValue};
use crate::lockfile::{
    each, lemma_each_ends, lemma_each_next, push_some, Document, LockfileError, SyntaxCause,
};
use crate::text::{after_last, chars_of, string_of, text_after_last};

verus! {

/// The name of the package at `key` in a v2 or v3 lockfile: as the entry gives it, else what
/// follows the last `node_modules/` of the key.
pub open spec fn npm_name(key: Seq<char>, value: Json) -> Seq<char> {
    match value.field_text("name"@) {
        Some(name) => name,
        None => after_last(key, "node_modules/"@),
    }
}

/// The package at `key` in a v2 or v3 lockfile. The root project (the empty key) is none, nor is
/// an entry without a version.
pub open spec fn npm_package(key: Seq<char>, value: Json) -> Option<Entry> {
    match value.field_text("version"@) {
        Some(version) => if key.len() > 0 && npm_name(key, value).len() > 0 {
            Some(Entry { ecosystem: Ecosystem::Npm, name: npm_name(key, value), version })
        } else {
            None
        },
        None => None,
    }
}

/// `npm_package` as a rule on the fields of `packages`.
pub open spec fn npm_rule() -> spec_fn((Seq<char>, Json)) -> Option<Entry> {
    |f: (Seq<char>, Json)| npm_package(f.0, f.1)
}

/// The dependencies that `value` nests, in a v1 lockfile.
pub open spec fn npm_nested(value: Json) -> Seq<(Seq<char>, Json)> {
    match value {
        Json::Record(fields) => match field_index(fields, "dependencies"@, fields.len()) {
            Some(i) => match fields[i].1 {
                Json::Record(nested) => nested,
                _ => Seq::empty(),
            },
            None => Seq::empty(),
        },
        _ => Seq::empty(),
    }
}

/// The packages of the first `n` dependencies of a v1 lockfile: each one that has a version, and
/// after it those that it nests, to any depth.
pub open spec fn npm_walk(deps: Seq<(Seq<char>, Json)>, n: nat) -> Seq<Entry>
    decreases deps, n,
{
    if n == 0 || n > deps.len() {
        Seq::empty()
    } else {
        proof {
            lemma_npm_nested_decreases(deps, n - 1);
        }
        let name = deps[n - 1].0;
        let value = deps[n - 1].1;
        let own = match value.field_text("version"@) {
            Some(version) => seq![Entry { ecosystem: Ecosystem::Npm, name, version }],
            None => Seq::empty(),
        };
        let nested = npm_nested(value);
        npm_walk(deps, (n - 1) as nat) + own + (if nested.len() == 0 {
            Seq::empty()
        } else {
            npm_walk(nested, nested.len())
        })
    }
}

/// What a dependency nests is smaller than the list that it stands in.
pub proof fn lemma_npm_nested_decreases(deps: Seq<(Seq<char>, Json)>, k: int)
    requires
        0 <= k < deps.len(),
    ensures
        npm_nested(deps[k].1).len() > 0 ==> decreases_to!(deps => npm_nested(deps[k].1)),
{
    let value = deps[k].1;
    if npm_nested(value).len() > 0 {
        let fields = value->Record_0;
        lemma_field_index(fields, "dependencies"@, fields.len());
        let i = field_index(fields, "dependencies"@, fields.len()).unwrap();
        assert(decreases_to!(deps => deps[k]));
        assert(decreases_to!(deps[k] => deps[k].1));
        assert(decreases_to!(value => value->Record_0));
        assert(decreases_to!(fields => fields[i]));
        assert(decreases_to!(fields[i] => fields[i].1));
        assert(decreases_to!(fields[i].1 => fields[i].1->Record_0));
    }
}

/// The packages of a `package-lock.json`.
pub open spec fn npm_entries(doc: Json) -> Seq<Entry> {
    let version = match doc.field_natural("lockfileVersion"@) {
        Some(v) => v,
        None => 1,
    };
    if version >= 2 {
        match doc.field_fields("packages"@) {
            Some(packages) => each(packages, npm_rule()),
            None => Seq::empty(),
        }
    } else {
        match doc.field_fields("dependencies"@) {
            Some(deps) => npm_walk(deps, deps.len()),
            None => Seq::empty(),
        }
    }
}

/// Reads one field of `packages`.
fn read_package(key: &String, value: &JsonValue) -> (r: Option<LockfileEntry>)
    ensures
        match r {
            Some(e) => npm_package(key@, value@) == Some(e@),
            None => npm_package(key@, value@) is None,
        },
{
    let version: String = match value.str_at("version") {
        Some(v) => v.clone(),
        None => {
            return None;
        },
    };
    let chars: Vec<char> = chars_of(key.as_str());
    if chars.len() == 0 {
        return None;
    }
    let name: String = match value.str_at("name") {
        Some(n) => n.clone(),
        None => string_of(text_after_last(chars.as_slice(), "node_modules/")),
    };
    if name.as_str().is_empty() {
        return None;
    }
    Some(LockfileEntry { ecosystem: Ecosystem::Npm, name, version })
}

/// Walks the dependencies of a v1 lockfile to any depth.
pub fn walk_npm_v1(deps: &Vec<(String, JsonValue)>, out: &mut Vec<LockfileEntry>)
    ensures
        entries(final(out)@) == entries(old(out)@) + npm_walk(field_views(deps@), deps@.len()),
    decreases field_views(deps@),
{
    let ghost all = field_views(deps@);
    let ghost start = entries(out@);
    let mut i: usize = 0;
    assert(start + npm_walk(all, 0) =~= start);
    while i < deps.len()
        invariant
            i <= deps.len(),
            all == field_views(deps@),
            entries(out@) == start + npm_walk(all, i as nat),
        decreases deps.len() - i,
    {
        let ghost before = npm_walk(all, i as nat);
        let ghost value = all[i as int].1;
        proof {
            lemma_npm_nested_decreases(all, i as int);
        }
        let own: Option<LockfileEntry> = match deps[i].1.str_at("version") {
            Some(version) => Some(
                LockfileEntry {
                    ecosystem: Ecosystem::Npm,
                    name: deps[i].0.clone(),
                    version: version.clone(),
                },
            ),
            None => None,
        };
        let ghost head = match value.field_text("version"@) {
            Some(version) => seq![Entry { ecosystem: Ecosystem::Npm, name: all[i as int].0, version }],
            None => Seq::empty(),
        };
        push_some(out, own);
        assert(entries(out@) =~= start + (before + head));
        match deps[i].1.object_at("dependencies") {
            Some(nested) => {
                assert(npm_nested(value) == field_views(nested@));
                if nested.len() > 0 {
                    walk_npm_v1(nested, out);
                    assert(npm_walk(all, (i + 1) as nat) == before + head + npm_walk(
                        npm_nested(value),
                        npm_nested(value).len(),
                    ));
                } else {
                    assert(npm_walk(all, (i + 1) as nat) =~= before + head);
                }
            },
            None => {
                assert(npm_nested(value).len() == 0);
                assert(npm_walk(all, (i + 1) as nat) =~= before + head);
            },
        }
        i += 1;
        assert(entries(out@) =~= start + npm_walk(all, i as nat));
    }
}

/// The packages of a `package-lock.json` that was read.
pub fn entries_of_npm(doc: &JsonValue) -> (r: Vec<LockfileEntry>)
    ensures
        entries(r@) == npm_entries(doc@),
{
    let mut out: Vec<LockfileEntry> = Vec::new();
    assert(entries(out@) =~= Seq::empty());
    let version: u64 = match doc.u64_at("lockfileVersion") {
        Some(v) => v,
        None => 1,
    };
    if version >= 2 {
        match doc.object_at("packages") {
            Some(packages) => {
                let ghost all = field_views(packages@);
                proof {
                    lemma_each_ends(all, npm_rule());
                }
                let mut i: usize = 0;
                while i < packages.len()
                    invariant
                        i <= packages.len(),
                        all == field_views(packages@),
                        entries(out@) == each(all.take(i as int), npm_rule()),
                    decreases packages.len() - i,
                {
                    proof {
                        lemma_each_next(all, npm_rule(), i as int);
                    }
                    let e: Option<LockfileEntry> = read_package(&packages[i].0, &packages[i].1);
                    push_some(&mut out, e);
                    i += 1;
                }
            },
            None => {},
        }
    } else {
        match doc.object_at("dependencies") {
            Some(deps) => {
                walk_npm_v1(deps, &mut out);
                assert(entries(out@) =~= npm_entries(doc@));
            },
            None => {},
        }
    }
    out
}

/// Parse a `package-lock.json` or `npm-shrinkwrap.json`.
pub fn parse_npm(content: &str) -> (r: Result<Vec<LockfileEntry>, LockfileError>)
    ensures
        match r {
            Ok(v) => json_document(content@) matches Some(doc) && entries(v@) == npm_entries(doc),
            Err(e) => json_document(content@) is None && e matches LockfileError::Syntax(
                Document::PackageLock,
                SyntaxCause::Json(_),
            ),
        },
{
    match parse_json(content) {
        Ok(doc) => Ok(entries_of_npm(&doc)),
        Err(e) => Err(LockfileError::Syntax(Document::PackageLock, SyntaxCause::Json(e))),
    }
}

} // verus!
