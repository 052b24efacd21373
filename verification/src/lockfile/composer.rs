//! Composer: `composer.lock`.
use vstd::prelude::*;

use crate::entry::{entries, Ecosystem, Entry, LockfileEntry};
use crate::json::{json_document, json_views, parse_json, Json, JsonValue};
use crate::lockfile::{
    each, lemma_each_ends, lemma_each_next, push_some, Document, LockfileError, SyntaxCause,
};
use crate::text::{chars_of, same_text, starts_with};

verus! {

/// The package in one item of a package list. A metapackage has no code of its own, and a `dev-`
/// version is a branch and no release: both are none.
pub open spec fn composer_package(pkg: Json) -> Option<Entry> {
    match (pkg.field_text("name"@), pkg.field_text("version"@)) {
        (Some(name), Some(version)) => if pkg.field_text("type"@) == Some("metapackage"@)
            || "dev-"@.is_prefix_of(version) {
            None
        } else {
            Some(Entry { ecosystem: Ecosystem::Composer, name, version })
        },
        _ => None,
    }
}

/// `composer_package` as a rule.
pub open spec fn composer_rule() -> spec_fn(Json) -> Option<Entry> {
    |pkg: Json| composer_package(pkg)
}

/// The packages of one list.
pub open spec fn composer_list(doc: Json, key: Seq<char>) -> Seq<Entry> {
    match doc.field_items(key) {
        Some(items) => each(items, composer_rule()),
        None => Seq::empty(),
    }
}

/// The packages of a `composer.lock`: those of `packages`, then those of `packages-dev`.
pub open spec fn composer_entries(doc: Json) -> Seq<Entry> {
    composer_list(doc, "packages"@) + composer_list(doc, "packages-dev"@)
}

/// Reads one item of a package list.
fn read_package(pkg: &JsonValue) -> (r: Option<LockfileEntry>)
    ensures
        match r {
            Some(e) => composer_package(pkg@) == Some(e@),
            None => composer_package(pkg@) is None,
        },
{
    match (pkg.str_at("name"), pkg.str_at("version")) {
        (Some(name), Some(version)) => {
            let meta: bool = match pkg.str_at("type") {
                Some(t) => same_text(t.as_str(), "metapackage"),
                None => false,
            };
            if meta || starts_with(chars_of(version.as_str()).as_slice(), "dev-") {
                None
            } else {
                Some(
                    LockfileEntry {
                        ecosystem: Ecosystem::Composer,
                        name: name.clone(),
                        version: version.clone(),
                    },
                )
            }
        },
        _ => None,
    }
}

/// Appends the packages of one list.
fn read_list(doc: &JsonValue, key: &str, out: &mut Vec<LockfileEntry>)
    ensures
        entries(final(out)@) == entries(old(out)@) + composer_list(doc@, key@),
{
    let ghost start = entries(out@);
    match doc.array_at(key) {
        Some(items) => {
            let ghost all = json_views(items@);
            proof {
                lemma_each_ends(all, composer_rule());
            }
            let mut i: usize = 0;
            assert(start + each(all.take(0), composer_rule()) =~= start);
            while i < items.len()
                invariant
                    i <= items.len(),
                    all == json_views(items@),
                    entries(out@) == start + each(all.take(i as int), composer_rule()),
                decreases items.len() - i,
            {
                proof {
                    lemma_each_next(all, composer_rule(), i as int);
                }
                let e: Option<LockfileEntry> = read_package(&items[i]);
                push_some(out, e);
                i += 1;
                assert(entries(out@) =~= start + each(all.take(i as int), composer_rule()));
            }
        },
        None => {
            assert(start + Seq::empty() =~= start);
        },
    }
}

/// The packages of a `composer.lock` that was read.
pub fn entries_of_composer(doc: &JsonValue) -> (r: Vec<LockfileEntry>)
    ensures
        entries(r@) == composer_entries(doc@),
{
    let mut out: Vec<LockfileEntry> = Vec::new();
    read_list(doc, "packages", &mut out);
    read_list(doc, "packages-dev", &mut out);
    assert(entries(out@) =~= composer_entries(doc@));
    out
}

/// Parse a `composer.lock`.
pub fn parse_composer_lock(content: &str) -> (r: Result<Vec<LockfileEntry>, LockfileError>)
    ensures
        match r {
            Ok(v) => json_document(content@) matches Some(doc) && entries(v@) == composer_entries(doc),
            Err(e) => json_document(content@) is None && e matches LockfileError::Syntax(
                Document::ComposerLock,
                SyntaxCause::Json(_),
            ),
        },
{
    match parse_json(content) {
        Ok(doc) => Ok(entries_of_composer(&doc)),
        Err(e) => Err(LockfileError::Syntax(Document::ComposerLock, SyntaxCause::Json(e))),
    }
}

} // verus!
