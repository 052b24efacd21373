//! PyPI: `requirements.txt`, `requirements.lock` and `constraints.txt`.
use vstd::prelude::*;
use vstd::slice::slice_subrange;

use crate::entry::{entries, Ecosystem, Entry, LockfileEntry};
use crate::lockfile::pypi::{is_name_char, make_pypi_entry, normal_name, pypi_entry, valid_name};
use crate::lockfile::{each, lemma_each_ends, lemma_each_next, push_some, LockfileError};
use crate::text::{
    append, ascii_lower, before_char, chars_of, contains_char, find, find_char, find_text, is_space, lemma_find,
    lemma_find_char, lines, lines_of, match_at, position_of, string_of, trim, trim_char, trim_end, trim_end_char,
    trim_end_of, trim_of, trim_start, trim_text, trim_text_end, up_to, views,
};

verus! {

/// The text of the first `n` lines with continued lines joined: a line that ends in backslashes
/// goes on, after a space, with the next one.
pub open spec fn joined_lines(all: Seq<Seq<char>>, n: nat) -> Seq<char>
    decreases n,
{
    if n == 0 || n > all.len() {
        Seq::empty()
    } else {
        let front = joined_lines(all, (n - 1) as nat);
        let line = trim_end(all[n - 1]);
        if line.len() > 0 && line.last() == '\\' {
            front + trim_end_char(line, '\\') + seq![' ']
        } else {
            front + all[n - 1] + seq!['\n']
        }
    }
}

/// A line without its environment marker and its hashes.
pub open spec fn requirement_core(line: Seq<char>) -> Seq<char> {
    let unmarked = trim(before_char(line, ';'));
    match find(unmarked, "--hash"@) {
        Some(i) => trim(unmarked.take(i)),
        None => unmarked,
    }
}

/// What stands on the two sides of the first `===`, or where there is none of the first `==`.
pub open spec fn pin_sides(core: Seq<char>) -> Option<(Seq<char>, Seq<char>)> {
    match find(core, "==="@) {
        Some(i) => Some((trim(core.take(i)), trim(core.skip(i + 3)))),
        None => match find(core, "=="@) {
            Some(i) => Some((trim(core.take(i)), trim(core.skip(i + 2)))),
            None => None,
        },
    }
}

/// A name without its `[extras]`.
pub open spec fn without_extras(name: Seq<char>) -> Seq<char> {
    match find_char(name, '[') {
        Some(i) => trim(name.take(i)),
        None => name,
    }
}

/// The package that a line pins: `name[extras]==version`, with or without a marker and hashes.
/// Every other line (ranges, several constraints, URLs) pins none.
pub open spec fn requirement(line: Seq<char>) -> Option<Entry> {
    match pin_sides(requirement_core(line)) {
        Some((name, version)) => if name.len() == 0 || version.len() == 0 || version.contains(',')
            || version.contains(' ') {
            None
        } else {
            pypi_entry(without_extras(name), trim_char(trim_char(version, '"'), '\''))
        },
        None => None,
    }
}

/// The package that a line of the file pins. Comments, blank lines and pip options pin none.
pub open spec fn requirements_line(line: Seq<char>) -> Option<Entry> {
    let bare = trim(before_char(line, '#'));
    if bare.len() == 0 || bare[0] == '-' {
        None
    } else {
        requirement(bare)
    }
}

/// `requirements_line` as a rule on lines.
pub open spec fn requirements_rule() -> spec_fn(Seq<char>) -> Option<Entry> {
    |line: Seq<char>| requirements_line(line)
}

/// The packages of a requirements file.
pub open spec fn requirements_entries(content: Seq<char>) -> Seq<Entry> {
    let raw = lines(content);
    each(lines(joined_lines(raw, raw.len())), requirements_rule())
}

// ---------------------------------------------------------------------------
// The forms of a requirement
// ---------------------------------------------------------------------------

/// A package name as a requirement writes it: valid, and not to be taken for a hash option.
pub open spec fn is_written_name(n: Seq<char>) -> bool {
    valid_name(n) && find(n, "--hash"@) is None
}

/// A version as a requirement writes it: letters, digits, dots, and what local versions, epochs
/// and wildcards have.
pub open spec fn is_written_version(v: Seq<char>) -> bool {
    v.len() > 0 && forall|i: int| 0 <= i < v.len() ==> is_version_char(#[trigger] v[i])
}

/// A character of a version.
pub open spec fn is_version_char(c: char) -> bool {
    ||| 'a' <= c <= 'z'
    ||| 'A' <= c <= 'Z'
    ||| '0' <= c <= '9'
    ||| c == '.'
    ||| c == '+'
    ||| c == '!'
    ||| c == '*'
}

/// A list of extras: letters and digits, with commas between them.
pub open spec fn is_extras(x: Seq<char>) -> bool {
    forall|i: int| 0 <= i < x.len() ==> is_extra_char(#[trigger] x[i])
}

/// A character of a list of extras.
pub open spec fn is_extra_char(c: char) -> bool {
    ||| 'a' <= c <= 'z'
    ||| 'A' <= c <= 'Z'
    ||| '0' <= c <= '9'
    ||| c == ','
}

/// The first character of a comparison other than equality.
pub open spec fn is_comparison(c: char) -> bool {
    c == '>' || c == '<' || c == '~' || c == '!'
}

/// Without white space at the ends, without a marker, and without a hash option.
spec fn is_bare(a: Seq<char>) -> bool {
    &&& a.len() > 0
    &&& !is_space(a[0])
    &&& !is_space(a.last())
    &&& forall|i: int| 0 <= i < a.len() ==> (#[trigger] a[i]) != ';'
    &&& find(a, "--hash"@) is None
}

/// A name is bare, and has none of the marks of a requirement.
proof fn lemma_name(n: Seq<char>)
    requires
        is_written_name(n),
    ensures
        is_bare(n),
        forall|i: int| 0 <= i < n.len() ==> (#[trigger] n[i]) != '=' && n[i] != '[' && n[i] != ';',
{
    assert forall|i: int| 0 <= i < n.len() implies (#[trigger] n[i]) != '=' && n[i] != '[' && n[i] != ';' by {
        assert(is_name_char(n[i]));
    }
    assert(is_name_char(n[0]));
    assert(is_name_char(n[n.len() - 1]));
}

/// A name with more text behind it is bare, where the text has no hyphen and no marker and does
/// not go on with a hash option.
proof fn lemma_name_and_more(n: Seq<char>, more: Seq<char>)
    requires
        is_written_name(n),
        more.len() > 0,
        more[0] != 'h' && more[0] != 'a' && more[0] != 's',
        forall|i: int| 0 <= i < more.len() ==> (#[trigger] more[i]) != '-' && more[i] != ';',
        !is_space(more.last()),
    ensures
        is_bare(n + more),
{
    reveal_strlit("--hash");
    lemma_name(n);
    let a = n + more;
    let p = "--hash"@;
    lemma_find(n, p);
    lemma_find(a, p);
    assert forall|i: int| 0 <= i < a.len() implies (#[trigger] a[i]) != ';' by {
        if i >= n.len() {
            assert(a[i] == more[i - n.len()]);
        } else {
            assert(a[i] == n[i]);
        }
    }
    if find(a, p) is Some {
        let i = find(a, p).unwrap();
        let k = n.len() as int;
        if i + 6 <= k {
            assert(n.subrange(i, i + 6) =~= a.subrange(i, i + 6));
            assert(match_at(n, p, i));
        } else if i < k {
            assert(a.subrange(i, i + 6)[k - i] == more[0]);
            assert(p[k - i] == more[0]);
        } else {
            assert(a.subrange(i, i + 6)[0] == more[i - k]);
        }
    }
}

/// Nothing is taken off a bare line.
proof fn lemma_core(a: Seq<char>)
    requires
        is_bare(a),
    ensures
        requirement_core(a) == a,
{
    lemma_find_char(a, ';');
}

/// White space behind a bare text is taken off.
proof fn lemma_trim_space(a: Seq<char>)
    requires
        is_bare(a),
    ensures
        trim(a.push(' ')) == a,
{
    let s = a.push(' ');
    assert(s[0] == a[0]);
    assert(s.drop_last() =~= a);
    assert(trim_start(s) == s);
    assert(trim_end(a) == a);
}

/// A marker is taken off.
proof fn lemma_core_marker(a: Seq<char>, m: Seq<char>)
    requires
        is_bare(a),
    ensures
        requirement_core(a + " ; "@ + m) == a,
{
    reveal_strlit(" ; ");
    let line = a + " ; "@ + m;
    let k = a.len() as int;
    lemma_find_char(line, ';');
    assert(line[k + 1] == ';');
    assert forall|i: int| 0 <= i <= k implies (#[trigger] line[i]) != ';' by {
        if i < k {
            assert(line[i] == a[i]);
        }
    }
    assert(line.take(k + 1) =~= a.push(' '));
    lemma_trim_space(a);
}

/// What does not end with white space is not cut by what follows it.
proof fn lemma_trim_end_keeps(p: Seq<char>, g: Seq<char>)
    requires
        p.len() > 0,
        !is_space(p.last()),
    ensures
        p.len() <= trim_end(p + g).len(),
        trim_end(p + g).take(p.len() as int) == p,
    decreases g.len(),
{
    let s = p + g;
    if g.len() == 0 {
        assert(s =~= p);
        assert(p.take(p.len() as int) =~= p);
    } else {
        assert(s.drop_last() =~= p + g.drop_last());
        lemma_trim_end_keeps(p, g.drop_last());
        assert(s.take(p.len() as int) =~= p);
    }
}

/// A hash is taken off.
proof fn lemma_core_hash(a: Seq<char>, h: Seq<char>)
    requires
        is_bare(a),
    ensures
        requirement_core(a + " --hash="@ + h) == a,
{
    reveal_strlit("--hash");
    reveal_strlit(" --hash=");
    let mark = "--hash"@;
    let head = a + " --hash="@;
    let line = head + h;
    let k = a.len() as int;
    assert forall|i: int| 0 <= i < head.len() implies (#[trigger] head[i]) != ';' by {
        if i < k {
            assert(head[i] == a[i]);
        }
    }
    lemma_find_char(line, ';');
    let s = before_char(line, ';');
    let g = s.skip(head.len() as int);
    match find_char(line, ';') {
        Some(i) => {
            if i < head.len() {
                assert(line[i] == head[i]);
            }
        },
        None => {},
    }
    assert(s =~= head + g);
    lemma_trim_end_keeps(head, g);
    assert(s[0] == a[0]);
    let u = trim(s);
    assert(u == trim_end(s));
    assert forall|i: int| 0 <= i < head.len() implies (#[trigger] u[i]) == head[i] by {
        assert(u.take(head.len() as int)[i] == u[i]);
    }
    lemma_find(u, mark);
    lemma_find(a, mark);
    assert(u.subrange(k + 1, k + 7) =~= mark);
    assert(match_at(u, mark, k + 1));
    let i = find(u, mark).unwrap();
    if i + 6 <= k {
        assert(a.subrange(i, i + 6) =~= u.subrange(i, i + 6));
        assert(match_at(a, mark, i));
    } else if i <= k {
        assert(u[k] == ' ');
        assert(u.subrange(i, i + 6)[k - i] == u[k]);
        assert(mark[k - i] == ' ');
    }
    assert(i == k + 1);
    assert(u.take(k + 1) =~= a.push(' '));
    lemma_trim_space(a);
}

/// The sides of a pin with `==` are the text before it and the version behind it.
proof fn lemma_pin(a: Seq<char>, v: Seq<char>)
    requires
        a.len() > 0,
        !is_space(a[0]),
        !is_space(a.last()),
        forall|i: int| 0 <= i < a.len() ==> (#[trigger] a[i]) != '=',
        v.len() > 0,
        !is_space(v[0]),
        !is_space(v.last()),
        find("=="@ + v, "==="@) is None,
    ensures
        pin_sides(a + "=="@ + v) == Some((a, v)),
{
    let k = a.len() as int;
    let line = a + "=="@ + v;
    assert(find(line, "==="@) is None) by {
        reveal_strlit("==");
        reveal_strlit("===");
        let behind = "=="@ + v;
        lemma_find(line, "==="@);
        lemma_find(behind, "==="@);
        if find(line, "==="@) is Some {
            let i = find(line, "==="@).unwrap();
            assert(line.subrange(i, i + 3)[0] == line[i]);
            if i < k {
                assert(line[i] == a[i]);
            } else {
                assert(behind.subrange(i - k, i - k + 3) =~= line.subrange(i, i + 3));
                assert(match_at(behind, "==="@, i - k));
            }
        }
    }
    assert(find(line, "=="@) == Some(k)) by {
        reveal_strlit("==");
        lemma_find(line, "=="@);
        assert(line.subrange(k, k + 2) =~= "=="@);
        assert(match_at(line, "=="@, k));
        let i = find(line, "=="@).unwrap();
        if i < k {
            assert(line.subrange(i, i + 2)[0] == a[i]);
        }
    }
    assert(line.take(k) =~= a);
    assert(line.skip(k + 2) =~= v) by {
        reveal_strlit("==");
    }
    assert(trim(a) == a);
    assert(trim(v) == v);
}

/// The sides of a pin with `===` are the text before it and the version behind it.
proof fn lemma_strict_pin(a: Seq<char>, v: Seq<char>)
    requires
        a.len() > 0,
        !is_space(a[0]),
        !is_space(a.last()),
        forall|i: int| 0 <= i < a.len() ==> (#[trigger] a[i]) != '=',
        v.len() > 0,
        !is_space(v[0]),
        !is_space(v.last()),
    ensures
        pin_sides(a + "==="@ + v) == Some((a, v)),
{
    let k = a.len() as int;
    let line = a + "==="@ + v;
    assert(find(line, "==="@) == Some(k)) by {
        reveal_strlit("===");
        lemma_find(line, "==="@);
        assert(line.subrange(k, k + 3) =~= "==="@);
        assert(match_at(line, "==="@, k));
        let i = find(line, "==="@).unwrap();
        if i < k {
            assert(line.subrange(i, i + 3)[0] == a[i]);
        }
    }
    assert(line.take(k) =~= a);
    assert(line.skip(k + 3) =~= v) by {
        reveal_strlit("===");
    }
    assert(trim(a) == a);
    assert(trim(v) == v);
}

/// A version has none of the marks of a requirement.
proof fn lemma_version(v: Seq<char>)
    requires
        is_written_version(v),
    ensures
        forall|i: int|
            0 <= i < v.len() ==> {
                &&& (#[trigger] v[i]) != '='
                &&& v[i] != '-'
                &&& v[i] != ';'
                &&& v[i] != ','
                &&& v[i] != '"'
                &&& v[i] != '\''
                &&& !is_space(v[i])
            },
        find("=="@ + v, "==="@) is None,
{
    reveal_strlit("==");
    reveal_strlit("===");
    assert forall|i: int| 0 <= i < v.len() implies {
        &&& (#[trigger] v[i]) != '='
        &&& v[i] != '-'
        &&& v[i] != ';'
        &&& v[i] != ','
        &&& v[i] != '"'
        &&& v[i] != '\''
        &&& !is_space(v[i])
    } by {
        assert(is_version_char(v[i]));
    }
    let s = "=="@ + v;
    lemma_find(s, "==="@);
    if find(s, "==="@) is Some {
        let i = find(s, "==="@).unwrap();
        assert(s.subrange(i, i + 3)[2] == s[i + 2]);
        assert(s[i + 2] == v[i]);
    }
}

/// The normal form of a valid name is valid.
proof fn lemma_normal_name_is_valid(n: Seq<char>)
    requires
        forall|i: int| 0 <= i < n.len() ==> is_name_char(#[trigger] n[i]),
    ensures
        forall|i: int| 0 <= i < normal_name(n).len() ==> is_name_char(#[trigger] normal_name(n)[i]),
        n.len() > 0 ==> normal_name(n).len() > 0,
    decreases n.len(),
{
    if n.len() > 0 {
        let short = n.drop_last();
        assert forall|i: int| 0 <= i < short.len() implies is_name_char(#[trigger] short[i]) by {
            assert(short[i] == n[i]);
        }
        lemma_normal_name_is_valid(short);
        let c = n[n.len() - 1];
        assert(is_name_char(c));
        assert(is_name_char(ascii_lower(c)));
        let front = normal_name(short);
        let all = normal_name(n);
        assert forall|i: int| 0 <= i < all.len() implies is_name_char(#[trigger] all[i]) by {
            if i < front.len() {
                assert(all[i] == front[i]);
            }
        }
    }
}

/// A line whose sides are the name, with or without extras, and the version pins the package.
proof fn lemma_entry(line: Seq<char>, named: Seq<char>, n: Seq<char>, v: Seq<char>)
    requires
        pin_sides(requirement_core(line)) == Some((named, v)),
        named.len() > 0,
        without_extras(named) == n,
        is_written_name(n),
        is_written_version(v),
    ensures
        requirement(line) == Some(Entry { ecosystem: Ecosystem::Pypi, name: normal_name(n), version: v }),
{
    lemma_version(v);
    lemma_normal_name_is_valid(n);
    assert(v[0] != '"' && v[0] != '\'');
    assert(v.last() == v[v.len() - 1]);
    assert(trim_char(v, '"') == v);
    assert(trim_char(v, '\'') == v);
}

/// A line pins its package in each of these forms, and all of them give the same entry: with `==`
/// or `===`, with extras, with an environment marker, and with a hash.
pub proof fn law_pinned_forms_give_one_entry(
    n: Seq<char>,
    v: Seq<char>,
    x: Seq<char>,
    m: Seq<char>,
    h: Seq<char>,
)
    requires
        is_written_name(n),
        is_written_version(v),
        is_extras(x),
    ensures
        ({
            let e = Some(Entry { ecosystem: Ecosystem::Pypi, name: normal_name(n), version: v });
            &&& requirement(n + "=="@ + v) == e
            &&& requirement(n + "==="@ + v) == e
            &&& requirement(n + "["@ + x + "]=="@ + v) == e
            &&& requirement(n + "=="@ + v + " ; "@ + m) == e
            &&& requirement(n + "=="@ + v + " --hash="@ + h) == e
        }),
{
    reveal_strlit("==");
    reveal_strlit("===");
    reveal_strlit("[");
    reveal_strlit("]==");
    lemma_name(n);
    lemma_version(v);
    lemma_find_char(n, '[');
    let last = v[v.len() - 1];
    assert(!is_space(v[0]) && !is_space(last));
    lemma_pin(n, v);
    lemma_strict_pin(n, v);

    let plain = n + "=="@ + v;
    let more = "=="@ + v;
    assert(more.last() == last);
    lemma_name_and_more(n, more);
    assert(n + more =~= plain);
    lemma_core(plain);
    lemma_core_marker(plain, m);
    lemma_core_hash(plain, h);
    lemma_entry(plain, n, n, v);
    lemma_entry(plain + " ; "@ + m, n, n, v);
    lemma_entry(plain + " --hash="@ + h, n, n, v);

    let strict = n + "==="@ + v;
    let more = "==="@ + v;
    assert(more.last() == last);
    lemma_name_and_more(n, more);
    assert(n + more =~= strict);
    lemma_core(strict);
    lemma_entry(strict, n, n, v);

    let named = n + "["@ + x + seq![']'];
    let extra = n + "["@ + x + "]=="@ + v;
    let k = n.len() as int;
    assert(named + "=="@ + v =~= extra);
    assert(named[0] == n[0]);
    assert(named.last() == ']');
    assert forall|i: int| 0 <= i < named.len() implies (#[trigger] named[i]) != '=' by {
        if i < k {
            assert(named[i] == n[i]);
        } else if k < i < named.len() - 1 {
            assert(named[i] == x[i - k - 1]);
            assert(is_extra_char(x[i - k - 1]));
        }
    }
    lemma_pin(named, v);
    lemma_find_char(named, '[');
    assert(named[k] == '[');
    assert forall|i: int| 0 <= i < k implies (#[trigger] named[i]) != '[' by {
        assert(named[i] == n[i]);
    }
    assert(named.take(k) =~= n);
    let more = "["@ + x + "]=="@ + v;
    assert(more.last() == last);
    assert forall|i: int| 0 <= i < more.len() implies (#[trigger] more[i]) != '-' && more[i] != ';' by {
        if 0 < i <= x.len() {
            assert(more[i] == x[i - 1]);
            assert(is_extra_char(x[i - 1]));
        } else if i > x.len() + 3 {
            assert(more[i] == v[i - x.len() - 4]);
        }
    }
    lemma_name_and_more(n, more);
    assert(n + more =~= extra);
    lemma_core(extra);
    lemma_entry(extra, named, n, v);
}

/// A line without two equals signs in a row has no sides.
proof fn lemma_no_pin(a: Seq<char>)
    requires
        forall|i: int| 0 <= i < a.len() - 1 ==> (#[trigger] a[i]) != '=' || a[i + 1] != '=',
    ensures
        pin_sides(a) is None,
{
    reveal_strlit("==");
    reveal_strlit("===");
    lemma_find(a, "=="@);
    lemma_find(a, "==="@);
    if find(a, "=="@) is Some {
        let i = find(a, "=="@).unwrap();
        assert(a.subrange(i, i + 2)[0] == a[i] && a.subrange(i, i + 2)[1] == a[i + 1]);
    }
    if find(a, "==="@) is Some {
        let i = find(a, "==="@).unwrap();
        assert(a.subrange(i, i + 3)[0] == a[i] && a.subrange(i, i + 3)[1] == a[i + 1]);
    }
}

/// A line that does not pin one version gives no entry: a name alone, another comparison, a
/// second constraint, and a name with nothing but a marker, whatever the marker says.
pub proof fn law_unpinned_forms_give_none(
    n: Seq<char>,
    v: Seq<char>,
    c: char,
    w: Seq<char>,
    m: Seq<char>,
)
    requires
        is_written_name(n),
        is_written_version(v),
        is_comparison(c),
        is_written_version(w),
    ensures
        requirement(n) is None,
        requirement(n + seq![c, '='] + v) is None,
        requirement(n + "=="@ + v + seq![',', c, '='] + w) is None,
        requirement(n + " ; "@ + m) is None,
{
    reveal_strlit("==");
    reveal_strlit("===");
    lemma_name(n);
    lemma_version(v);
    lemma_version(w);
    let k = n.len() as int;

    lemma_core(n);
    lemma_core_marker(n, m);
    lemma_no_pin(n);

    let ranged = n + seq![c, '='] + v;
    let more = seq![c, '='] + v;
    assert(more.last() == v[v.len() - 1]);
    assert forall|i: int| 0 <= i < more.len() implies (#[trigger] more[i]) != '-' && more[i] != ';' by {
        if i >= 2 {
            assert(more[i] == v[i - 2]);
        }
    }
    lemma_name_and_more(n, more);
    assert(n + more =~= ranged);
    lemma_core(ranged);
    assert forall|i: int| 0 <= i < ranged.len() - 1 implies (#[trigger] ranged[i]) != '=' || ranged[i + 1]
        != '=' by {
        if i < k {
            assert(ranged[i] == n[i]);
        } else if i > k {
            assert(ranged[i + 1] == v[i - k - 1]);
        }
    }
    lemma_no_pin(ranged);

    let tail = v + seq![',', c, '='] + w;
    let listed = n + "=="@ + v + seq![',', c, '='] + w;
    let more = "=="@ + tail;
    assert(tail.last() == w[w.len() - 1]);
    assert(more.last() == tail.last());
    assert forall|i: int| 0 <= i < tail.len() implies (#[trigger] tail[i]) != '-' && tail[i] != ';' by {
        if i < v.len() {
            assert(tail[i] == v[i]);
        } else if i >= v.len() + 3 {
            assert(tail[i] == w[i - v.len() - 3]);
        }
    }
    assert forall|i: int| 0 <= i < more.len() implies (#[trigger] more[i]) != '-' && more[i] != ';' by {
        if i >= 2 {
            assert(more[i] == tail[i - 2]);
        }
    }
    lemma_name_and_more(n, more);
    assert(n + more =~= listed);
    lemma_core(listed);
    lemma_find(more, "==="@);
    if find(more, "==="@) is Some {
        let i = find(more, "==="@).unwrap();
        let p = more.subrange(i, i + 3);
        assert(p[0] == more[i] && p[1] == more[i + 1] && p[2] == more[i + 2]);
        if i < v.len() {
            assert(more[i + 2] == v[i]);
        } else if i == v.len() {
            assert(more[i + 2] == ',');
        } else if i == v.len() + 1 {
            assert(more[i + 2] == c);
        } else if i == v.len() + 2 {
            assert(more[i] == ',');
        } else {
            assert(more[i + 2] == w[i - v.len() - 3]);
        }
    }
    assert(tail[0] == v[0]);
    lemma_pin(n, tail);
    assert(n + "=="@ + tail =~= listed);
    assert(tail[v.len() as int] == ',');
    assert(tail.contains(','));
}

/// Reads one requirement.
fn read_requirement(line: &[char]) -> (r: Option<LockfileEntry>)
    ensures
        match r {
            Some(e) => requirement(line@) == Some(e@),
            None => requirement(line@) is None,
        },
{
    proof {
        reveal_strlit("===");
        reveal_strlit("==");
    }
    let unmarked: &[char] = trim_text(up_to(line, ';'));
    let core: &[char] = match find_text(unmarked, "--hash") {
        Some(i) => {
            assert(unmarked@.take(i as int) =~= unmarked@.subrange(0, i as int));
            trim_text(slice_subrange(unmarked, 0, i))
        },
        None => unmarked,
    };
    assert(core@ == requirement_core(line@));
    let at: usize;
    let width: usize;
    match find_text(core, "===") {
        Some(i) => {
            at = i;
            width = 3;
        },
        None => match find_text(core, "==") {
            Some(i) => {
                at = i;
                width = 2;
            },
            None => {
                return None;
            },
        },
    }
    assert(at + width <= core.len());
    assert(core@.take(at as int) =~= core@.subrange(0, at as int));
    assert(core@.skip(at + width) =~= core@.subrange(at + width, core@.len() as int));
    let name: &[char] = trim_text(slice_subrange(core, 0, at));
    let version: &[char] = trim_text(slice_subrange(core, at + width, core.len()));
    assert(pin_sides(core@) == Some((name@, version@)));
    if name.len() == 0 || version.len() == 0 {
        return None;
    }
    if contains_char(version, ',') || contains_char(version, ' ') {
        return None;
    }
    let bare: &[char] = match position_of(name, '[') {
        Some(i) => {
            assert(name@.take(i as int) =~= name@.subrange(0, i as int));
            trim_text(slice_subrange(name, 0, i))
        },
        None => name,
    };
    let version: &[char] = trim_of(trim_of(version, '"'), '\'');
    let bare: String = string_of(bare);
    make_pypi_entry(bare.as_str(), string_of(version))
}

/// Returns Some for `name[extras]==version` lines, None for everything else.
pub fn parse_requirements_line(line: &str) -> (r: Option<LockfileEntry>)
    ensures
        match r {
            Some(e) => requirement(line@) == Some(e@),
            None => requirement(line@) is None,
        },
{
    let chars: Vec<char> = chars_of(line);
    read_requirement(chars.as_slice())
}

/// The text with continued lines joined.
fn join_lines(content: &[char]) -> (r: Vec<char>)
    ensures
        r@ == joined_lines(lines(content@), lines(content@).len()),
{
    let raw: Vec<&[char]> = lines_of(content);
    let ghost all = lines(content@);
    let mut joined: Vec<char> = Vec::new();
    let mut i: usize = 0;
    while i < raw.len()
        invariant
            i <= raw.len(),
            views(raw@) == all,
            joined@ == joined_lines(all, i as nat),
        decreases raw.len() - i,
    {
        assert(raw@[i as int]@ == all[i as int]);
        let line: &[char] = trim_text_end(raw[i]);
        if line.len() > 0 && line[line.len() - 1] == '\\' {
            append(&mut joined, trim_end_of(line, '\\'));
            joined.push(' ');
        } else {
            append(&mut joined, raw[i]);
            joined.push('\n');
        }
        i += 1;
        assert(joined@ =~= joined_lines(all, i as nat));
    }
    joined
}

/// Parse pip-style requirements. Only fully pinned lines (`name==X.Y.Z`) are kept: the service needs
/// concrete versions, not ranges. Comments, blank lines, `-r/-c/-e` directives and unpinned specs
/// are skipped; environment markers and hashes are dropped.
pub fn parse_requirements_txt(content: &str) -> (r: Result<Vec<LockfileEntry>, LockfileError>)
    ensures
        r matches Ok(v) && entries(v@) == requirements_entries(content@),
{
    let content: Vec<char> = chars_of(content);
    let joined: Vec<char> = join_lines(content.as_slice());
    let rows: Vec<&[char]> = lines_of(joined.as_slice());
    let ghost all = lines(joined@);
    let mut out: Vec<LockfileEntry> = Vec::new();
    let mut i: usize = 0;
    proof {
        lemma_each_ends(all, requirements_rule());
        assert(entries(out@) =~= Seq::empty());
    }
    while i < rows.len()
        invariant
            i <= rows.len(),
            views(rows@) == all,
            entries(out@) == each(all.take(i as int), requirements_rule()),
        decreases rows.len() - i,
    {
        proof {
            assert(rows@[i as int]@ == all[i as int]);
            lemma_each_next(all, requirements_rule(), i as int);
        }
        let line: &[char] = trim_text(up_to(rows[i], '#'));
        if line.len() > 0 && line[0] != '-' {
            let e: Option<LockfileEntry> = read_requirement(line);
            push_some(&mut out, e);
        }
        i += 1;
    }
    Ok(out)
}

} // verus!
