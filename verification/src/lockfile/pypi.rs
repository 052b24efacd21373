//! PyPI: package names and `Pipfile.lock`.
use vstd::prelude::*;

use crate::entry::{entries, Ecosystem, Entry, LockfileEntry};
use crate::json::{field_views, json_document, parse_json, Json, JsonValue};
use crate::lockfile::{
    each, lemma_each_ends, lemma_each_next, push_some, Document, LockfileError, SyntaxCause,
};
use crate::text::{
    ascii_lower, chars_of, string_of, to_ascii_lower, trim, trim_start_text, trim_start_texts, trim_text,
};

verus! {

// ---------------------------------------------------------------------------
// Names
// ---------------------------------------------------------------------------

/// A character that separates the words of a name.
pub open spec fn is_separator(c: char) -> bool {
    c == '_' || c == '.' || c == '-'
}

/// The normal form of a package name: in lower case, and with one `-` for every run of separators.
pub open spec fn normal_name(raw: Seq<char>) -> Seq<char>
    decreases raw.len(),
{
    if raw.len() == 0 {
        Seq::empty()
    } else {
        let front = normal_name(raw.drop_last());
        let c = raw.last();
        if !is_separator(c) {
            front.push(ascii_lower(c))
        } else if raw.len() >= 2 && is_separator(raw[raw.len() - 2]) {
            front
        } else {
            front.push('-')
        }
    }
}

/// A character that a package name may have.
pub open spec fn is_name_char(c: char) -> bool {
    ||| 'a' <= c <= 'z'
    ||| 'A' <= c <= 'Z'
    ||| '0' <= c <= '9'
    ||| is_separator(c)
}

/// A package name: not empty, and letters, digits and separators only.
pub open spec fn valid_name(name: Seq<char>) -> bool {
    name.len() > 0 && forall|i: int| 0 <= i < name.len() ==> is_name_char(#[trigger] name[i])
}

/// A name in normal form: no upper case, `-` as the only separator, and never next to another.
pub open spec fn is_normal(name: Seq<char>) -> bool {
    &&& forall|i: int|
        0 <= i < name.len() ==> (#[trigger] name[i]) != '_' && name[i] != '.' && !('A' <= name[i] <= 'Z')
    &&& forall|i: int| 0 <= i < name.len() - 1 ==> (#[trigger] name[i]) != '-' || name[i + 1] != '-'
}

/// Normalization gives names in normal form, which end with `-` where the name ends with a
/// separator.
proof fn lemma_normal_name(raw: Seq<char>)
    ensures
        is_normal(normal_name(raw)),
        raw.len() > 0 ==> normal_name(raw).len() > 0,
        raw.len() > 0 ==> (normal_name(raw).last() == '-' <==> is_separator(raw.last())),
    decreases raw.len(),
{
    if raw.len() > 0 {
        let short = raw.drop_last();
        lemma_normal_name(short);
        let front = normal_name(short);
        let all = normal_name(raw);
        if raw.len() >= 2 {
            assert(short.last() == raw[raw.len() - 2]);
        }
        if all.len() > front.len() {
            assert forall|i: int| 0 <= i < all.len() - 1 implies (#[trigger] all[i]) != '-' || all[i + 1]
                != '-' by {
                if i + 1 < front.len() {
                    assert(all[i] == front[i] && all[i + 1] == front[i + 1]);
                } else {
                    assert(all[i] == front.last());
                }
            }
        }
    }
}

/// Normalization gives names in normal form.
pub proof fn law_normalized_name_is_normal(raw: Seq<char>)
    ensures
        is_normal(normal_name(raw)),
{
    lemma_normal_name(raw);
}

/// Normalization leaves a name in normal form as it is, so normalizing twice is normalizing once.
pub proof fn law_normalization_keeps_normal_names(name: Seq<char>)
    requires
        is_normal(name),
    ensures
        normal_name(name) == name,
    decreases name.len(),
{
    if name.len() > 0 {
        let short = name.drop_last();
        assert forall|i: int| 0 <= i < short.len() implies (#[trigger] short[i]) != '_' && short[i] != '.' && !(
        'A' <= short[i] <= 'Z') by {
            assert(short[i] == name[i]);
        }
        assert forall|i: int| 0 <= i < short.len() - 1 implies (#[trigger] short[i]) != '-' || short[i + 1]
            != '-' by {
            assert(short[i] == name[i] && short[i + 1] == name[i + 1]);
        }
        law_normalization_keeps_normal_names(short);
        let c = name[name.len() - 1];
        assert(name.last() == c);
        assert(c != '_' && c != '.' && !('A' <= c <= 'Z'));
        if name.len() >= 2 {
            let b = name[name.len() - 2];
            assert(b != '_' && b != '.');
            assert(b != '-' || c != '-');
        }
        assert(short.push(c) =~= name);
    }
}

/// Two separators in a row are as good as one, whichever they are and wherever in the name they
/// stand.
pub proof fn law_run_of_separators_is_one(raw: Seq<char>, rest: Seq<char>, a: char, b: char, c: char)
    requires
        is_separator(a),
        is_separator(b),
        is_separator(c),
    ensures
        normal_name(raw + seq![a, b] + rest) == normal_name(raw + seq![c] + rest),
    decreases rest.len(),
{
    let long = raw + seq![a, b] + rest;
    let short = raw + seq![c] + rest;
    if rest.len() == 0 {
        let one = raw + seq![a];
        assert(long.drop_last() =~= one);
        assert(long.last() == b);
        assert(long[long.len() - 2] == a);
        assert(one.drop_last() =~= raw);
        assert(one.last() == a);
        assert(short.drop_last() =~= raw);
        assert(short.last() == c);
        if raw.len() > 0 {
            assert(one[one.len() - 2] == raw.last());
            assert(short[short.len() - 2] == raw.last());
        }
        assert(normal_name(long) == normal_name(one));
        assert(normal_name(one) == normal_name(short));
    } else {
        let less = rest.drop_last();
        law_run_of_separators_is_one(raw, less, a, b, c);
        assert(long.drop_last() =~= raw + seq![a, b] + less);
        assert(short.drop_last() =~= raw + seq![c] + less);
        assert(long.last() == rest.last());
        assert(short.last() == rest.last());
        if less.len() > 0 {
            assert(long[long.len() - 2] == less.last());
            assert(short[short.len() - 2] == less.last());
        } else {
            assert(long[long.len() - 2] == b);
            assert(short[short.len() - 2] == c);
        }
    }
}

/// PEP 503 name normalization: lowercase, runs of `_`/`.`/`-` collapse to a single `-`. Two
/// distributions whose normalized names match are considered the same package by PyPI.
pub fn normalize_pypi_name(raw: &str) -> (r: String)
    ensures
        r@ == normal_name(raw@),
{
    let chars: Vec<char> = chars_of(raw);
    let mut out: Vec<char> = Vec::new();
    let mut after_separator: bool = false;
    let mut i: usize = 0;
    assert(chars@.take(0) =~= Seq::empty());
    while i < chars.len()
        invariant
            i <= chars.len(),
            chars@ == raw@,
            after_separator == (i > 0 && is_separator(chars@[i - 1])),
            out@ == normal_name(chars@.take(i as int)),
        decreases chars.len() - i,
    {
        let c: char = chars[i];
        let ghost next = chars@.take(i + 1);
        assert(next.drop_last() =~= chars@.take(i as int));
        assert(next.last() == c);
        assert(i > 0 ==> next[next.len() - 2] == chars@[i - 1]);
        if c == '_' || c == '.' || c == '-' {
            if !after_separator {
                out.push('-');
            }
            after_separator = true;
        } else {
            out.push(to_ascii_lower(c));
            after_separator = false;
        }
        i += 1;
    }
    assert(chars@.take(i as int) =~= chars@);
    string_of(out.as_slice())
}

/// Whether a name has letters, digits and separators only, and at least one of them.
pub fn is_valid_pypi_name(name: &str) -> (r: bool)
    ensures
        r == valid_name(name@),
{
    let chars: Vec<char> = chars_of(name);
    let mut i: usize = 0;
    while i < chars.len()
        invariant
            i <= chars.len(),
            chars@ == name@,
            forall|j: int| 0 <= j < i ==> is_name_char(#[trigger] chars@[j]),
        decreases chars.len() - i,
    {
        let c: char = chars[i];
        let good: bool = ('a' <= c && c <= 'z') || ('A' <= c && c <= 'Z') || ('0' <= c && c <= '9') || c == '_'
            || c == '.' || c == '-';
        assert(good == is_name_char(chars@[i as int]));
        if !good {
            return false;
        }
        i += 1;
    }
    chars.len() > 0
}

/// The entry for a package with a name as a Python lockfile writes it.
pub open spec fn pypi_entry(raw: Seq<char>, version: Seq<char>) -> Option<Entry> {
    if valid_name(normal_name(raw)) {
        Some(Entry { ecosystem: Ecosystem::Pypi, name: normal_name(raw), version })
    } else {
        None
    }
}

/// The entry for a package with a name as a Python lockfile writes it.
pub fn make_pypi_entry(raw: &str, version: String) -> (r: Option<LockfileEntry>)
    ensures
        match r {
            Some(e) => pypi_entry(raw@, version@) == Some(e@),
            None => pypi_entry(raw@, version@) is None,
        },
{
    let name: String = normalize_pypi_name(raw);
    if is_valid_pypi_name(name.as_str()) {
        Some(LockfileEntry { ecosystem: Ecosystem::Pypi, name, version })
    } else {
        None
    }
}

// ---------------------------------------------------------------------------
// Pipfile.lock
// ---------------------------------------------------------------------------

/// The version in a pin of a `Pipfile.lock`, without the operator and the space around it.
pub open spec fn pipfile_version(raw: Seq<char>) -> Seq<char> {
    trim(trim_start_text(trim_start_text(trim(raw), "=="@), "==="@))
}

/// The package `name` of a section. An entry without a version, or with a name that PyPI does
/// not know, is none.
pub open spec fn pipfile_package(name: Seq<char>, value: Json) -> Option<Entry> {
    match value.field_text("version"@) {
        Some(raw) => if pipfile_version(raw).len() > 0 {
            pypi_entry(name, pipfile_version(raw))
        } else {
            None
        },
        None => None,
    }
}

/// `pipfile_package` as a rule on the fields of a section.
pub open spec fn pipfile_rule() -> spec_fn((Seq<char>, Json)) -> Option<Entry> {
    |f: (Seq<char>, Json)| pipfile_package(f.0, f.1)
}

/// The packages of one section.
pub open spec fn pipfile_section(doc: Json, section: Seq<char>) -> Seq<Entry> {
    match doc.field_fields(section) {
        Some(fields) => each(fields, pipfile_rule()),
        None => Seq::empty(),
    }
}

/// The packages of a `Pipfile.lock`: those of `default`, then those of `develop`.
pub open spec fn pipfile_entries(doc: Json) -> Seq<Entry> {
    pipfile_section(doc, "default"@) + pipfile_section(doc, "develop"@)
}

/// Reads one field of a section.
fn read_pipfile_package(name: &String, value: &JsonValue) -> (r: Option<LockfileEntry>)
    ensures
        match r {
            Some(e) => pipfile_package(name@, value@) == Some(e@),
            None => pipfile_package(name@, value@) is None,
        },
{
    match value.str_at("version") {
        Some(raw) => {
            proof {
                reveal_strlit("==");
                reveal_strlit("===");
            }
            let raw: Vec<char> = chars_of(raw.as_str());
            let pin: &[char] = trim_start_texts(trim_text(raw.as_slice()), "==");
            let version: &[char] = trim_text(trim_start_texts(pin, "==="));
            if version.len() == 0 {
                None
            } else {
                make_pypi_entry(name.as_str(), string_of(version))
            }
        },
        None => None,
    }
}

/// Appends the packages of one section.
fn read_pipfile_section(doc: &JsonValue, section: &str, out: &mut Vec<LockfileEntry>)
    ensures
        entries(final(out)@) == entries(old(out)@) + pipfile_section(doc@, section@),
{
    let ghost start = entries(out@);
    match doc.object_at(section) {
        Some(fields) => {
            let ghost all = field_views(fields@);
            proof {
                lemma_each_ends(all, pipfile_rule());
            }
            let mut i: usize = 0;
            assert(start + each(all.take(0), pipfile_rule()) =~= start);
            while i < fields.len()
                invariant
                    i <= fields.len(),
                    all == field_views(fields@),
                    entries(out@) == start + each(all.take(i as int), pipfile_rule()),
                decreases fields.len() - i,
            {
                proof {
                    lemma_each_next(all, pipfile_rule(), i as int);
                }
                let e: Option<LockfileEntry> = read_pipfile_package(&fields[i].0, &fields[i].1);
                push_some(out, e);
                i += 1;
                assert(entries(out@) =~= start + each(all.take(i as int), pipfile_rule()));
            }
        },
        None => {
            assert(start + Seq::empty() =~= start);
        },
    }
}

/// The packages of a `Pipfile.lock` that was read.
pub fn entries_of_pipfile(doc: &JsonValue) -> (r: Vec<LockfileEntry>)
    ensures
        entries(r@) == pipfile_entries(doc@),
{
    let mut out: Vec<LockfileEntry> = Vec::new();
    read_pipfile_section(doc, "default", &mut out);
    read_pipfile_section(doc, "develop", &mut out);
    assert(entries(out@) =~= pipfile_entries(doc@));
    out
}

/// Parse a `Pipfile.lock`.
pub fn parse_pipfile_lock(content: &str) -> (r: Result<Vec<LockfileEntry>, LockfileError>)
    ensures
        match r {
            Ok(v) => json_document(content@) matches Some(doc) && entries(v@) == pipfile_entries(doc),
            Err(e) => json_document(content@) is None && e matches LockfileError::Syntax(
                Document::PipfileLock,
                SyntaxCause::Json(_),
            ),
        },
{
    match parse_json(content) {
        Ok(doc) => Ok(entries_of_pipfile(&doc)),
        Err(e) => Err(LockfileError::Syntax(Document::PipfileLock, SyntaxCause::Json(e))),
    }
}

} // verus!
