//! Waiver matching: name glob, semver range, and the parts of a gate target.
use vstd::prelude::*;
use vstd::slice::slice_subrange;
use vstd::string::StrSliceExecFns;

use crate::entry::{Ecosystem, Entry};
use crate::text::{
    chars_of, ends_with, find, find_char, find_slice, find_text, last_position_of, lemma_find, lemma_find_char,
    lemma_rfind_char, match_at, rfind_char, same, split_at_char, split_char, starts_with_slice, views,
};

verus! {

// ---------------------------------------------------------------------------
// Name globs
// ---------------------------------------------------------------------------

/// `name` matches `pattern`, in which `*` stands for any text and every other character for
/// itself.
pub open spec fn glob(pattern: Seq<char>, name: Seq<char>) -> bool
    decreases pattern.len() + name.len(),
{
    if pattern.len() == 0 {
        name.len() == 0
    } else if pattern[0] == '*' {
        ||| glob(pattern.drop_first(), name)
        ||| name.len() > 0 && glob(pattern, name.drop_first())
    } else {
        name.len() > 0 && name[0] == pattern[0] && glob(pattern.drop_first(), name.drop_first())
    }
}

/// The segments `mids` stand in `text` one after the other, with any text around them.
pub open spec fn in_order(mids: Seq<Seq<char>>, text: Seq<char>) -> bool
    decreases mids.len(),
{
    mids.len() == 0 || exists|i: int|
        #[trigger] match_at(text, mids[0], i) && in_order(
            mids.drop_first(),
            text.skip(i + mids[0].len()),
        )
}

/// `text` is any text and then `segments`, with any text between them; the last one ends it.
pub open spec fn ends_in_order(segments: Seq<Seq<char>>, text: Seq<char>) -> bool {
    let last = segments.last();
    last.is_suffix_of(text) && in_order(segments.drop_last(), text.take(text.len() - last.len()))
}

/// A pattern without a star in front is matched character by character.
proof fn lemma_glob_literal(lit: Seq<char>, rest: Seq<char>, name: Seq<char>)
    requires
        !lit.contains('*'),
    ensures
        glob(lit + rest, name) == (lit.is_prefix_of(name) && glob(rest, name.skip(lit.len() as int))),
    decreases lit.len(),
{
    if lit.len() == 0 {
        assert(lit + rest =~= rest);
        assert(name.skip(0) =~= name);
        assert(lit =~= name.subrange(0, 0));
    } else {
        let whole = lit + rest;
        assert(whole[0] == lit[0]);
        assert(lit.contains(lit[0]));
        assert(whole.drop_first() =~= lit.drop_first() + rest);
        assert forall|c: char| lit.drop_first().contains(c) implies lit.contains(c) by {
            let i = choose|i: int| 0 <= i < lit.drop_first().len() && lit.drop_first()[i] == c;
            assert(lit[i + 1] == c);
        }
        if name.len() > 0 {
            lemma_glob_literal(lit.drop_first(), rest, name.drop_first());
            if lit.len() <= name.len() {
                assert(name.drop_first().skip(lit.len() - 1) =~= name.skip(lit.len() as int));
            }
            if lit.is_prefix_of(name) {
                assert(name.subrange(0, lit.len() as int)[0] == name[0]);
                assert(lit.drop_first() =~= name.drop_first().subrange(0, lit.len() - 1));
            }
            if name[0] == lit[0] && lit.drop_first().is_prefix_of(name.drop_first()) {
                assert forall|i: int| 0 <= i < lit.len() implies lit[i] == name[i] by {
                    if i > 0 {
                        assert(lit[i] == lit.drop_first()[i - 1]);
                        assert(name.drop_first().subrange(0, lit.len() - 1)[i - 1] == name[i]);
                    }
                }
                assert(lit =~= name.subrange(0, lit.len() as int));
            }
        }
    }
}

/// A star takes any number of characters.
proof fn lemma_glob_star(rest: Seq<char>, name: Seq<char>)
    ensures
        glob(seq!['*'] + rest, name) <==> exists|k: int|
            0 <= k <= name.len() && #[trigger] glob(rest, name.skip(k)),
    decreases name.len(),
{
    let p = seq!['*'] + rest;
    assert(p.drop_first() =~= rest);
    assert(name.skip(0) =~= name);
    if glob(rest, name) {
        assert(glob(rest, name.skip(0)));
    }
    if name.len() > 0 {
        lemma_glob_star(rest, name.drop_first());
        if glob(p, name.drop_first()) {
            let k = choose|k: int|
                0 <= k <= name.drop_first().len() && #[trigger] glob(rest, name.drop_first().skip(k));
            assert(name.drop_first().skip(k) =~= name.skip(k + 1));
            assert(glob(rest, name.skip(k + 1)));
        }
        if exists|k: int| 0 <= k <= name.len() && #[trigger] glob(rest, name.skip(k)) {
            let k = choose|k: int| 0 <= k <= name.len() && #[trigger] glob(rest, name.skip(k));
            if k > 0 {
                assert(name.drop_first().skip(k - 1) =~= name.skip(k));
                assert(glob(rest, name.drop_first().skip(k - 1)));
            }
        }
    } else if exists|k: int| 0 <= k <= name.len() && #[trigger] glob(rest, name.skip(k)) {
        assert(glob(rest, name.skip(0)));
    }
}

/// More text in front does no harm.
proof fn lemma_in_order_more(mids: Seq<Seq<char>>, text: Seq<char>, k: int)
    requires
        0 <= k <= text.len(),
        in_order(mids, text.skip(k)),
    ensures
        in_order(mids, text),
{
    if mids.len() > 0 {
        let tail = text.skip(k);
        let i = choose|i: int|
            #[trigger] match_at(tail, mids[0], i) && in_order(
                mids.drop_first(),
                tail.skip(i + mids[0].len()),
            );
        assert(tail.subrange(i, i + mids[0].len()) =~= text.subrange(k + i, k + i + mids[0].len()));
        assert(match_at(text, mids[0], k + i));
        assert(tail.skip(i + mids[0].len()) =~= text.skip(k + i + mids[0].len()));
    }
}

/// Taking the first place of a segment loses no match.
proof fn lemma_in_order_first(mids: Seq<Seq<char>>, text: Seq<char>)
    requires
        mids.len() > 0,
    ensures
        in_order(mids, text) == match find(text, mids[0]) {
            Some(i) => in_order(mids.drop_first(), text.skip(i + mids[0].len())),
            None => false,
        },
{
    let m = mids[0];
    lemma_find(text, m);
    if in_order(mids, text) {
        let j = choose|j: int|
            #[trigger] match_at(text, m, j) && in_order(mids.drop_first(), text.skip(j + m.len()));
        let i = find(text, m).unwrap();
        assert(i <= j);
        let late = text.skip(i + m.len());
        assert(late.skip(j - i) =~= text.skip(j + m.len()));
        lemma_in_order_more(mids.drop_first(), late, j - i);
    }
}

/// What follows a star in a pattern is its segments in order, the last one at the end.
proof fn lemma_glob_tail(tail: Seq<char>, name: Seq<char>)
    ensures
        glob(seq!['*'] + tail, name) == ends_in_order(split_char(tail, '*'), name),
    decreases tail.len(),
{
    lemma_find_char(tail, '*');
    lemma_glob_star(tail, name);
    let segments = split_char(tail, '*');
    match find_char(tail, '*') {
        None => {
            assert(segments =~= seq![tail]);
            assert(segments.drop_last() =~= Seq::empty());
            assert(tail + Seq::empty() =~= tail);
            if tail.is_suffix_of(name) {
                let k = name.len() - tail.len();
                lemma_glob_literal(tail, Seq::empty(), name.skip(k));
                assert(name.skip(k) =~= name.subrange(k, name.len() as int));
                assert(tail =~= name.skip(k).subrange(0, tail.len() as int));
                assert(name.skip(k).skip(tail.len() as int) =~= Seq::empty());
                assert(glob(tail, name.skip(k)));
            }
            if exists|k: int| 0 <= k <= name.len() && #[trigger] glob(tail, name.skip(k)) {
                let k = choose|k: int| 0 <= k <= name.len() && #[trigger] glob(tail, name.skip(k));
                lemma_glob_literal(tail, Seq::empty(), name.skip(k));
                assert(tail =~= name.subrange(name.len() - tail.len(), name.len() as int));
            }
        },
        Some(i) => {
            let m = tail.take(i);
            let rest = tail.skip(i + 1);
            let after = split_char(rest, '*');
            assert(segments =~= seq![m] + after);
            assert(!m.contains('*'));
            assert(tail =~= m + (seq!['*'] + rest));
            lemma_split_len(rest);
            let last = segments.last();
            assert(last == after.last());
            assert(segments.drop_last() =~= seq![m] + after.drop_last());
            let mids = segments.drop_last();
            assert(mids[0] == m);
            assert(mids.drop_first() =~= after.drop_last());
            if exists|k: int| 0 <= k <= name.len() && #[trigger] glob(tail, name.skip(k)) {
                let k = choose|k: int| 0 <= k <= name.len() && #[trigger] glob(tail, name.skip(k));
                let cut = name.skip(k);
                lemma_glob_literal(m, seq!['*'] + rest, cut);
                let late = cut.skip(m.len() as int);
                lemma_glob_tail(rest, late);
                assert(late =~= name.skip(k + m.len()));
                assert(last =~= name.subrange(name.len() - last.len(), name.len() as int)) by {
                    assert(late.subrange(late.len() - last.len(), late.len() as int) =~= name.subrange(
                        name.len() - last.len(),
                        name.len() as int,
                    ));
                }
                let body = name.take(name.len() - last.len());
                assert(late.take(late.len() - last.len()) =~= body.skip(k + m.len()));
                assert(cut.subrange(0, m.len() as int) =~= body.subrange(k, k + m.len()));
                assert(match_at(body, m, k));
                assert(in_order(mids, body));
            }
            if ends_in_order(segments, name) {
                let body = name.take(name.len() - last.len());
                let k = choose|k: int|
                    #[trigger] match_at(body, mids[0], k) && in_order(
                        mids.drop_first(),
                        body.skip(k + mids[0].len()),
                    );
                let cut = name.skip(k);
                let late = cut.skip(m.len() as int);
                assert(late =~= name.skip(k + m.len()));
                assert(late.take(late.len() - last.len()) =~= body.skip(k + m.len()));
                assert(last =~= late.subrange(late.len() - last.len(), late.len() as int)) by {
                    assert(late.subrange(late.len() - last.len(), late.len() as int) =~= name.subrange(
                        name.len() - last.len(),
                        name.len() as int,
                    ));
                }
                lemma_glob_tail(rest, late);
                lemma_glob_literal(m, seq!['*'] + rest, cut);
                assert(cut.subrange(0, m.len() as int) =~= body.subrange(k, k + m.len()));
                assert(glob(tail, name.skip(k)));
            }
        },
    }
}

/// Splitting gives at least one piece.
proof fn lemma_split_len(s: Seq<char>)
    ensures
        split_char(s, '*').len() > 0,
{
}

/// A glob is its segments: the text before the first star is a prefix of the name, the text
/// after the last star is a suffix of what is left, and the segments between stand in order in
/// the rest. Without a star the pattern is the name.
pub proof fn law_glob_is_its_segments(pattern: Seq<char>, name: Seq<char>)
    ensures
        glob(pattern, name) == {
            let segments = split_char(pattern, '*');
            if segments.len() == 1 {
                pattern == name
            } else {
                segments[0].is_prefix_of(name) && ends_in_order(
                    segments.drop_first(),
                    name.skip(segments[0].len() as int),
                )
            }
        },
{
    lemma_find_char(pattern, '*');
    let segments = split_char(pattern, '*');
    match find_char(pattern, '*') {
        None => {
            assert(segments =~= seq![pattern]);
            assert(!pattern.contains('*'));
            assert(pattern + Seq::empty() =~= pattern);
            lemma_glob_literal(pattern, Seq::empty(), name);
            if pattern == name {
                assert(pattern =~= name.subrange(0, pattern.len() as int));
                assert(name.skip(pattern.len() as int).len() == 0);
            }
            if pattern.is_prefix_of(name) && name.skip(pattern.len() as int).len() == 0 {
                assert(pattern =~= name);
            }
        },
        Some(i) => {
            let first = pattern.take(i);
            let rest = pattern.skip(i + 1);
            assert(segments =~= seq![first] + split_char(rest, '*'));
            assert(segments.drop_first() =~= split_char(rest, '*'));
            lemma_split_len(rest);
            assert(pattern =~= first + (seq!['*'] + rest));
            assert(!first.contains('*'));
            lemma_glob_literal(first, seq!['*'] + rest, name);
            if first.is_prefix_of(name) {
                lemma_glob_tail(rest, name.skip(first.len() as int));
            }
        },
    }
}

/// The pattern `*` matches every name.
pub proof fn law_star_matches_every_name(name: Seq<char>)
    ensures
        glob(seq!['*'], name),
{
    lemma_glob_star(Seq::empty(), name);
    assert(seq!['*'] + Seq::empty() =~= seq!['*']);
    assert(name.skip(name.len() as int).len() == 0);
    assert(glob(Seq::empty(), name.skip(name.len() as int)));
}

/// A pattern without a star matches the name that it spells and no other.
pub proof fn law_pattern_without_star_is_exact(pattern: Seq<char>, name: Seq<char>)
    requires
        !pattern.contains('*'),
    ensures
        glob(pattern, name) == (pattern == name),
{
    lemma_find_char(pattern, '*');
    law_glob_is_its_segments(pattern, name);
}

/// Glob match with `*` as the wildcard. Without a `*` the match is exact; with it, the segments
/// between the stars must appear in order, the first one as a prefix and the last as a suffix.
pub fn name_glob_matches(pattern: &str, name: &str) -> (r: bool)
    ensures
        r == glob(pattern@, name@),
{
    let p: Vec<char> = chars_of(pattern);
    let n: Vec<char> = chars_of(name);
    let parts: Vec<&[char]> = split_at_char(p.as_slice(), '*');
    let ghost segments = split_char(pattern@, '*');
    proof {
        law_glob_is_its_segments(pattern@, name@);
        assert(views(parts@) == segments);
    }
    if parts.len() == 1 {
        return same(p.as_slice(), n.as_slice());
    }
    let first: &[char] = parts[0];
    assert(first@ == segments[0]);
    if !starts_with_slice(n.as_slice(), first) {
        return false;
    }
    let rest: &[char] = slice_subrange(n.as_slice(), first.len(), n.len());
    assert(rest@ =~= name@.skip(first@.len() as int));
    let last: &[char] = parts[parts.len() - 1];
    let ghost tail = segments.drop_first();
    assert(tail.last() == last@);
    if !ends_with(rest, last) {
        return false;
    }
    let mut body: &[char] = slice_subrange(rest, 0, rest.len() - last.len());
    let ghost mids = tail.drop_last();
    assert(body@ =~= rest@.take(rest@.len() - last@.len()));
    assert(mids.skip(0) =~= mids);
    let mut k: usize = 1;
    while k < parts.len() - 1
        invariant
            1 <= k <= parts@.len() - 1,
            views(parts@) == segments,
            mids == segments.drop_first().drop_last(),
            glob(pattern@, name@) == in_order(mids.skip(k - 1), body@),
        decreases parts.len() - k,
    {
        let mid: &[char] = parts[k];
        proof {
            assert(mids.skip(k - 1)[0] == mid@);
            assert(mids.skip(k - 1).drop_first() =~= mids.skip(k as int));
            lemma_in_order_first(mids.skip(k - 1), body@);
        }
        match find_slice(body, mid) {
            Some(pos) => {
                assert(pos + mid@.len() <= body.len());
                let next: &[char] = slice_subrange(body, pos + mid.len(), body.len());
                assert(next@ =~= body@.skip(pos + mid@.len()));
                body = next;
            },
            None => {
                return false;
            },
        }
        k += 1;
    }
    true
}

// ---------------------------------------------------------------------------
// Version ranges
// ---------------------------------------------------------------------------

/// A version of the `semver` crate.
#[verifier::external_type_specification]
#[verifier::external_body]
pub struct ExVersion(semver::Version);

/// A version requirement of the `semver` crate.
#[verifier::external_type_specification]
#[verifier::external_body]
pub struct ExVersionReq(semver::VersionReq);

/// The error with which the `semver` crate refuses a text.
#[verifier::external_type_specification]
#[verifier::external_body]
pub struct ExSemverError(semver::Error);

/// The version that `semver::Version::parse` reads in a text, if it reads one.
pub uninterp spec fn semver_version(text: Seq<char>) -> Option<semver::Version>;

/// Whether `semver::VersionReq::matches` finds that a version meets a requirement.
pub uninterp spec fn requirement_met(req: semver::VersionReq, version: semver::Version) -> bool;

/// Calls `semver::Version::parse`. The contract names its result: which texts it reads, and
/// what it reads in them, depends on the text alone.
#[verifier::external_body]
fn parse_version(text: &str) -> (r: Result<semver::Version, semver::Error>)
    ensures
        match r {
            Ok(v) => semver_version(text@) == Some(v),
            Err(_) => semver_version(text@) is None,
        },
{
    semver::Version::parse(text)
}

/// Calls `semver::VersionReq::matches`. The contract names its result, which depends on the
/// requirement and the version alone.
#[verifier::external_body]
fn meets(req: &semver::VersionReq, version: &semver::Version) -> (r: bool)
    ensures
        r == requirement_met(*req, *version),
{
    req.matches(version)
}

/// What a range check decides: only a version that was read and meets the range is covered.
/// `met` is `None` for a version that cannot be read, so what cannot be checked is never waived.
pub fn covered(met: Option<bool>) -> (r: bool)
    ensures
        r == (met == Some(true)),
{
    match met {
        Some(m) => m,
        None => false,
    }
}

/// True iff `version` parses as semver AND satisfies `req`.
pub fn version_matches(req: &semver::VersionReq, version: &str) -> (r: bool)
    ensures
        r == match semver_version(version@) {
            Some(v) => requirement_met(*req, v),
            None => false,
        },
{
    match parse_version(version) {
        Ok(v) => covered(Some(meets(req, &v))),
        Err(_) => covered(None),
    }
}

// ---------------------------------------------------------------------------
// Gate targets
// ---------------------------------------------------------------------------

/// The name and the version in a gate target: apart at the first `==`, else at the last `@`,
/// else the whole target and no version.
pub open spec fn target_parts(target: Seq<char>) -> (Seq<char>, Seq<char>) {
    match find(target, "=="@) {
        Some(i) => (target.take(i), target.skip(i + 2)),
        None => match rfind_char(target, '@') {
            Some(i) => (target.take(i), target.skip(i + 1)),
            None => (target, Seq::empty()),
        },
    }
}

/// A target without a separator is a name without a version.
pub proof fn law_target_without_separator_is_a_name(target: Seq<char>)
    requires
        find(target, "=="@) is None,
        !target.contains('@'),
    ensures
        target_parts(target) == (target, Seq::<char>::empty()),
{
    lemma_rfind_char(target, '@');
    if rfind_char(target, '@') is Some {
        assert(target.contains(target[rfind_char(target, '@').unwrap()]));
    }
}

/// Split a gate target into (name, version). PyPI uses `name==version`; every other ecosystem
/// uses `name@version` (the last `@`, so npm scopes survive).
pub fn split_target(target: &str) -> (r: (&str, &str))
    ensures
        (r.0@, r.1@) == target_parts(target@),
{
    let chars: Vec<char> = chars_of(target);
    let n: usize = chars.len();
    proof {
        reveal_strlit("==");
        reveal_strlit("");
    }
    match find_text(chars.as_slice(), "==") {
        Some(i) => {
            let name: &str = target.substring_char(0, i);
            let version: &str = target.substring_char(i + 2, n);
            assert(name@ =~= target@.take(i as int));
            assert(version@ =~= target@.skip(i + 2));
            (name, version)
        },
        None => match last_position_of(chars.as_slice(), '@') {
            Some(i) => {
                let name: &str = target.substring_char(0, i);
                let version: &str = target.substring_char(i + 1, n);
                assert(name@ =~= target@.take(i as int));
                assert(version@ =~= target@.skip(i + 1));
                (name, version)
            },
            None => {
                assert(""@ =~= Seq::<char>::empty());
                (target, "")
            },
        },
    }
}

/// Splitting undoes the spec of an entry: the name and the version come back, unless the
/// separator stands in them where the split looks for it. For PyPI that is a `==` that begins
/// within the name; elsewhere it is a `==` in name or version, or an `@` in the version.
pub proof fn law_split_undoes_spec(e: Entry)
    requires
        if e.ecosystem == Ecosystem::Pypi {
            find(e.name + "=="@, "=="@) == Some(e.name.len() as int)
        } else {
            &&& find(e.name, "=="@) is None
            &&& find(e.version, "=="@) is None
            &&& !e.version.contains('@')
        },
    ensures
        target_parts(e.spec_text()) == (e.name, e.version),
{
    reveal_strlit("==");
    reveal_strlit("@");
    let t = e.spec_text();
    let n = e.name.len() as int;
    lemma_find(t, "=="@);
    lemma_rfind_char(t, '@');
    if e.ecosystem == Ecosystem::Pypi {
        let head = e.name + "=="@;
        lemma_find(head, "=="@);
        assert(t.subrange(n, n + 2) =~= "=="@);
        assert(match_at(t, "=="@, n));
        let i = find(t, "=="@).unwrap();
        if i < n {
            assert(head.subrange(i, i + 2) =~= t.subrange(i, i + 2));
            assert(match_at(head, "=="@, i));
        }
        assert(t.take(n) =~= e.name);
        assert(t.skip(n + 2) =~= e.version);
    } else {
        lemma_find(e.name, "=="@);
        lemma_find(e.version, "=="@);
        assert(t[n] == '@');
        if find(t, "=="@) is Some {
            let i = find(t, "=="@).unwrap();
            let pair = t.subrange(i, i + 2);
            assert(pair[0] == '=' && pair[1] == '=');
            assert(t[i] == '=' && t[i + 1] == '=');
            if i < n {
                assert(i + 1 < n);
                assert(e.name.subrange(i, i + 2) =~= pair);
                assert(match_at(e.name, "=="@, i));
            } else {
                assert(e.version.subrange(i - n - 1, i - n + 1) =~= pair);
                assert(match_at(e.version, "=="@, i - n - 1));
            }
        }
        let i = rfind_char(t, '@').unwrap();
        if i > n {
            assert(e.version[i - n - 1] == '@');
        }
        assert(t.take(n) =~= e.name);
        assert(t.skip(n + 1) =~= e.version);
    }
}

} // verus!
