//! What a requirements file lists: line by line, with continued lines as one.
use vstd::prelude::*;

use crate::entry::{Ecosystem, Entry};
use crate::lockfile::each;
use crate::lockfile::pypi::{normal_name, valid_name};
use crate::lockfile::requirements::{
    joined_lines, requirement, requirements_entries, requirements_line, requirements_rule,
};
use crate::text::{
    before_char, find, find_char, is_space, lemma_find, lemma_find_char, lines, match_at, trim, trim_end,
    trim_end_char, without_return,
};
use crate::text_laws::{
    all_space, is_bare, lacks, law_lines_come_one_by_one, law_trim_gives_back_bare_text, lemma_first_char,
    lemma_first_match, lemma_first_text, lemma_no_char, lemma_stands, lemma_trim_char,
    lemma_trim_end_char_stops, lemma_trim_end_pads, lemma_trim_end_stops, lemma_trim_start_pads,
};

verus! {

/// A line that goes on with the next one: it ends in a backslash, whatever white space follows.
pub open spec fn goes_on(line: Seq<char>) -> bool {
    trim_end(line).len() > 0 && trim_end(line).last() == '\\'
}

/// The text of lines with a line feed behind each.
spec fn fed(all: Seq<Seq<char>>) -> Seq<char>
    decreases all.len(),
{
    if all.len() == 0 {
        Seq::empty()
    } else {
        all[0] + seq!['\n'] + fed(all.drop_first())
    }
}

/// Lines have no line feed in them.
proof fn lemma_lines_lack_feeds(s: Seq<char>, i: int)
    requires
        0 <= i < lines(s).len(),
    ensures
        lacks(lines(s)[i], '\n'),
    decreases s.len(),
{
    lemma_find_char(s, '\n');
    match find_char(s, '\n') {
        Some(k) => {
            if i == 0 {
                let line = lines(s)[0];
                assert(line == without_return(s.take(k)));
                assert forall|j: int| 0 <= j < line.len() implies #[trigger] line[j] != '\n' by {
                    assert(line[j] == s[j]);
                }
            } else {
                lemma_lines_lack_feeds(s.skip(k + 1), i - 1);
                assert(lines(s)[i] == lines(s.skip(k + 1))[i - 1]);
            }
        },
        None => {},
    }
}

/// Lines that do not go on are joined with a line feed behind each.
proof fn lemma_joined(all: Seq<Seq<char>>, n: nat)
    requires
        n <= all.len(),
        forall|i: int| 0 <= i < all.len() ==> !goes_on(#[trigger] all[i]),
    ensures
        joined_lines(all, n) == fed(all.take(n as int)),
    decreases n,
{
    if n > 0 {
        lemma_joined(all, (n - 1) as nat);
        assert(!goes_on(all[n - 1]));
        assert(all.take(n as int) =~= all.take(n - 1).push(all[n - 1]));
        lemma_fed_push(all.take(n - 1), all[n - 1]);
    } else {
        assert(all.take(0) =~= Seq::empty());
    }
}

proof fn lemma_fed_push(all: Seq<Seq<char>>, line: Seq<char>)
    ensures
        fed(all.push(line)) == fed(all) + line + seq!['\n'],
    decreases all.len(),
{
    let more = all.push(line);
    if all.len() == 0 {
        assert(more.drop_first() =~= Seq::empty());
        assert(fed(more.drop_first()) =~= Seq::empty());
        assert(fed(all) =~= Seq::empty());
        assert(fed(more) =~= fed(all) + line + seq!['\n']);
    } else {
        assert(more.drop_first() =~= all.drop_first().push(line));
        lemma_fed_push(all.drop_first(), line);
        assert(fed(more) =~= fed(all) + line + seq!['\n']);
    }
}

/// The lines of such a text give what the lines give.
proof fn lemma_fed(all: Seq<Seq<char>>)
    requires
        forall|i: int| 0 <= i < all.len() ==> lacks(#[trigger] all[i], '\n'),
    ensures
        lines(fed(all)).len() == all.len(),
        forall|i: int| 0 <= i < all.len() ==> #[trigger] lines(fed(all))[i] == without_return(all[i]),
    decreases all.len(),
{
    if all.len() == 0 {
        law_lines_come_one_by_one(Seq::empty(), Seq::empty());
    } else {
        let rest = all.drop_first();
        assert forall|i: int| 0 <= i < rest.len() implies lacks(#[trigger] rest[i], '\n') by {
            assert(rest[i] == all[i + 1]);
        }
        assert(lacks(all[0], '\n'));
        lemma_fed(rest);
        law_lines_come_one_by_one(all[0], fed(rest));
        let out = lines(fed(all));
        assert forall|i: int| 0 <= i < all.len() implies #[trigger] out[i] == without_return(all[i]) by {
            if i > 0 {
                assert(out[i] == lines(fed(rest))[i - 1]);
                assert(rest[i - 1] == all[i]);
            }
        }
    }
}

/// A carriage return at the end of a line does not matter.
proof fn lemma_return_does_not_matter(line: Seq<char>)
    ensures
        requirements_line(without_return(line)) == requirements_line(line),
{
    if line.len() > 0 && line.last() == '\r' {
        let y = line.drop_last();
        let r = seq!['\r'];
        assert(line =~= y + r);
        assert(all_space(r));
        lemma_find_char(y, '#');
        lemma_find_char(line, '#');
        match find_char(y, '#') {
            Some(i) => {
                assert(line[i] == y[i]);
                let k = find_char(line, '#').unwrap();
                if k < i {
                    assert(line[k] == y[k]);
                }
                assert(k == i);
                assert(line.take(i) =~= y.take(i));
            },
            None => {
                assert forall|j: int| 0 <= j < line.len() implies #[trigger] line[j] != '#' by {
                    if j < y.len() {
                        assert(line[j] == y[j]);
                    }
                }
                assert(before_char(line, '#') == line);
                assert(before_char(y, '#') == y);
                lemma_trim_of_padded(y, r);
            },
        }
    }
}

/// White space behind a text does not change what trimming leaves of it.
proof fn lemma_trim_of_padded(y: Seq<char>, r: Seq<char>)
    requires
        all_space(r),
    ensures
        trim(y + r) == trim(y),
    decreases y.len(),
{
    if y.len() > 0 && is_space(y[0]) {
        assert((y + r).drop_first() =~= y.drop_first() + r);
        lemma_trim_of_padded(y.drop_first(), r);
    } else if y.len() == 0 {
        assert(y + r =~= r + y);
        lemma_trim_start_pads(r, y);
    } else {
        assert((y + r)[0] == y[0]);
        lemma_trim_end_pads(y, r);
    }
}

/// Two lists whose items give the same one by one give the same.
proof fn lemma_each_same(a: Seq<Seq<char>>, b: Seq<Seq<char>>)
    requires
        a.len() == b.len(),
        forall|i: int| 0 <= i < a.len() ==> requirements_line(#[trigger] a[i]) == requirements_line(b[i]),
    ensures
        each(a, requirements_rule()) == each(b, requirements_rule()),
    decreases a.len(),
{
    if a.len() > 0 {
        let x = a.drop_last();
        let y = b.drop_last();
        assert forall|i: int| 0 <= i < x.len() implies requirements_line(#[trigger] x[i]) == requirements_line(
            y[i],
        ) by {
            assert(x[i] == a[i]);
            assert(y[i] == b[i]);
        }
        lemma_each_same(x, y);
        assert(requirements_line(a[a.len() - 1]) == requirements_line(b[b.len() - 1]));
    }
}

/// A file in which no line goes on lists what its lines pin, each for itself and in their order.
pub proof fn law_requirements_are_read_line_by_line(content: Seq<char>)
    requires
        forall|i: int| 0 <= i < lines(content).len() ==> !goes_on(#[trigger] lines(content)[i]),
    ensures
        requirements_entries(content) == each(lines(content), requirements_rule()),
{
    let raw = lines(content);
    assert forall|i: int| 0 <= i < raw.len() implies lacks(#[trigger] raw[i], '\n') by {
        lemma_lines_lack_feeds(content, i);
    }
    lemma_joined(raw, raw.len());
    assert(raw.take(raw.len() as int) =~= raw);
    lemma_fed(raw);
    let read = lines(fed(raw));
    assert forall|i: int| 0 <= i < read.len() implies requirements_line(#[trigger] read[i]) == requirements_line(
        raw[i],
    ) by {
        lemma_return_does_not_matter(raw[i]);
    }
    lemma_each_same(read, raw);
}

/// The joined text of lines is that of the first and then that of the others.
proof fn lemma_joined_sum(a: Seq<Seq<char>>, b: Seq<Seq<char>>, k: nat)
    requires
        k <= b.len(),
    ensures
        joined_lines(a + b, a.len() + k) == joined_lines(a, a.len()) + joined_lines(b, k),
    decreases k,
{
    if k == 0 {
        lemma_joined_front(a, b, a.len());
        assert(joined_lines(a, a.len()) + joined_lines(b, 0) =~= joined_lines(a, a.len()));
    } else {
        lemma_joined_sum(a, b, (k - 1) as nat);
        assert((a + b)[a.len() + k - 1] == b[k - 1]);
        assert(joined_lines(a + b, a.len() + k) =~= joined_lines(a, a.len()) + joined_lines(b, k));
    }
}

proof fn lemma_joined_front(a: Seq<Seq<char>>, b: Seq<Seq<char>>, n: nat)
    requires
        n <= a.len(),
    ensures
        joined_lines(a + b, n) == joined_lines(a, n),
    decreases n,
{
    if n > 0 {
        lemma_joined_front(a, b, (n - 1) as nat);
        assert((a + b)[n - 1] == a[n - 1]);
    }
}

/// A line that goes on reads as one line with the next: what stands before its backslash, a
/// space, and the next line.
pub proof fn law_continued_line_reads_as_one(
    content: Seq<char>,
    joined: Seq<char>,
    a: Seq<Seq<char>>,
    x: Seq<char>,
    y: Seq<char>,
    b: Seq<Seq<char>>,
)
    requires
        lines(content) == a + seq![x, y] + b,
        lines(joined) == a + seq![trim_end_char(trim_end(x), '\\') + seq![' '] + y] + b,
        goes_on(x),
        y.len() > 0 && !is_space(y[0]) && y[0] != '\\',
    ensures
        requirements_entries(content) == requirements_entries(joined),
{
    let x1 = trim_end_char(trim_end(x), '\\');
    let one = x1 + seq![' '] + y;
    let p = seq![x, y];
    let q = seq![one];
    let front = x1 + seq![' '];
    // Both middle parts have the same text.
    let rest = y.skip(1);
    assert(y =~= seq![y[0]] + rest);
    assert(one =~= front + seq![y[0]] + rest);
    lemma_trim_end_stops(front, y[0], rest);
    lemma_trim_end_stops(Seq::empty(), y[0], rest);
    assert(Seq::<char>::empty() + seq![y[0]] + rest =~= y);
    let t = trim_end(rest);
    assert(trim_end(one) =~= front + trim_end(y));
    assert(trim_end(y) =~= seq![y[0]] + t);
    lemma_trim_end_char_stops(front, y[0], t, '\\');
    lemma_trim_end_char_stops(Seq::empty(), y[0], t, '\\');
    assert(Seq::<char>::empty() + seq![y[0]] + t =~= trim_end(y));
    assert(front + seq![y[0]] + t =~= trim_end(one));
    assert(trim_end_char(trim_end(one), '\\') =~= front + trim_end_char(trim_end(y), '\\'));
    assert(trim_end(one).last() == trim_end(y).last());
    reveal_with_fuel(joined_lines, 3);
    assert(p[0] == x && p[1] == y && q[0] == one);
    assert(joined_lines(p, 2) =~= joined_lines(q, 1));
    lemma_joined_sum(a, p, 2);
    lemma_joined_sum(a, q, 1);
    lemma_joined_sum(a + p, b, b.len());
    lemma_joined_sum(a + q, b, b.len());
}

/// A comment behind a line, and white space around it, do not change what it pins.
pub proof fn law_comment_does_not_matter(a: Seq<char>, line: Seq<char>, b: Seq<char>, comment: Seq<char>)
    requires
        all_space(a) && all_space(b),
        lacks(line, '#'),
    ensures
        requirements_line(a + line + b + seq!['#'] + comment) == requirements_line(line),
        requirements_line(a + line + b) == requirements_line(line),
{
    let whole = a + line + b;
    assert(lacks(whole, '#')) by {
        assert forall|i: int| 0 <= i < whole.len() implies #[trigger] whole[i] != '#' by {
            if i < a.len() {
                assert(is_space(a[i]));
            } else if i < a.len() + line.len() {
                assert(whole[i] == line[i - a.len()]);
            } else {
                assert(is_space(b[i - a.len() - line.len()]));
            }
        }
    }
    lemma_first_char(whole, '#', comment);
    lemma_no_char(whole, '#');
    lemma_no_char(line, '#');
    assert(whole =~= a + (line + b));
    lemma_trim_start_pads(a, line + b);
    lemma_trim_of_padded(line, b);
}

/// An environment marker does not change what a line pins, whatever it says.
pub proof fn law_marker_does_not_matter(line: Seq<char>, marker: Seq<char>)
    requires
        lacks(line, ';'),
    ensures
        requirement(line + seq![';'] + marker) == requirement(line),
{
    lemma_first_char(line, ';', marker);
    lemma_no_char(line, ';');
}

/// Hashes behind a line do not change what it pins, however many there are.
pub proof fn law_hashes_do_not_matter(line: Seq<char>, gap: Seq<char>, hashes: Seq<char>)
    requires
        is_bare(line),
        lacks(line, ';'),
        find(line, "--hash"@) is None,
        gap.len() > 0 && all_space(gap),
        lacks(hashes, ';'),
    ensures
        requirement(line + gap + "--hash"@ + hashes) == requirement(line),
{
    reveal_strlit("--hash");
    let p = "--hash"@;
    let front = line + gap;
    let whole = front + p + hashes;
    assert(lacks(gap, ';') && lacks(gap, '-') && lacks(gap, 'h')) by {
        assert forall|i: int| 0 <= i < gap.len() implies #[trigger] gap[i] != ';' && gap[i] != '-' && gap[i] != 'h'
            && gap[i] != 'a' && gap[i] != 's' by {
            assert(is_space(gap[i]));
        }
    }
    assert(lacks(whole, ';')) by {
        assert forall|i: int| 0 <= i < whole.len() implies #[trigger] whole[i] != ';' by {
            if i < line.len() {
                assert(whole[i] == line[i]);
            } else if i < front.len() {
                assert(whole[i] == gap[i - line.len()]);
            } else if i < front.len() + 6 {
                assert(whole[i] == p[i - front.len()]);
            } else {
                assert(whole[i] == hashes[i - front.len() - 6]);
            }
        }
    }
    lemma_no_char(whole, ';');
    lemma_no_char(line, ';');
    // What trimming leaves of the whole still begins with the line and its hashes.
    let tail = p.skip(1) + hashes;
    assert(whole =~= front + seq!['-'] + tail);
    lemma_trim_end_stops(front, '-', tail);
    assert(whole[0] == line[0]);
    assert(crate::text::trim_start(whole) == whole);
    let h = lemma_trim_end_keeps(p.skip(1), hashes);
    assert(trim(whole) =~= front + p + h) by {
        assert(seq!['-'] + p.skip(1) =~= p);
    }
    lemma_no_hash_in_front(line, gap, h);
    law_trim_gives_back_bare_text(Seq::empty(), line, gap);
    assert((front + p + h).take(front.len() as int) =~= front);
}

/// Trimming the end of text behind a text that ends with no white space leaves that text.
proof fn lemma_trim_end_keeps(p: Seq<char>, s: Seq<char>) -> (h: Seq<char>)
    requires
        p.len() > 0,
        !is_space(p.last()),
    ensures
        trim_end(p + s) == p + h,
    decreases s.len(),
{
    if s.len() == 0 {
        assert(p + s =~= p);
        assert(p + Seq::<char>::empty() =~= p);
        Seq::empty()
    } else if is_space(s.last()) {
        assert((p + s).drop_last() =~= p + s.drop_last());
        assert((p + s).last() == s.last());
        lemma_trim_end_keeps(p, s.drop_last())
    } else {
        assert((p + s).last() == s.last());
        s
    }
}

/// The hash option is first found where it stands, behind white space.
proof fn lemma_no_hash_in_front(line: Seq<char>, gap: Seq<char>, h: Seq<char>)
    requires
        find(line, "--hash"@) is None,
        gap.len() > 0,
        lacks(gap, '-') && lacks(gap, 'h'),
        all_space(gap),
    ensures
        find(line + gap + "--hash"@ + h, "--hash"@) == Some((line.len() + gap.len()) as int),
{
    reveal_strlit("--hash");
    let p = "--hash"@;
    let front = line + gap;
    let s = front + p + h;
    lemma_stands(front, p, h);
    assert forall|j: int| 0 <= j < front.len() implies !match_at(s, p, j) by {
        if match_at(s, p, j) {
            let piece = s.subrange(j, j + 6);
            if j + 6 <= line.len() {
                lemma_find(line, p);
                assert(line.subrange(j, j + 6) =~= piece);
                assert(match_at(line, p, j));
            } else if j < line.len() {
                let k = line.len() - j;
                assert(piece[k] == s[line.len() as int]);
                assert(s[line.len() as int] == gap[0]);
                assert(is_space(gap[0]));
                assert(!is_space(p[k]));
            } else {
                assert(piece[0] == s[j]);
                assert(s[j] == gap[j - line.len()]);
            }
        }
    }
    lemma_first_match(s, p, front.len() as int);
}

/// What may stand behind a name: nothing, or extras in brackets.
pub open spec fn is_extras(extras: Seq<char>) -> bool {
    extras.len() == 0 || extras[0] == '[' && !is_space(extras.last())
}

/// A pin gives the name without its extras and the version, whatever the extras are and whatever
/// white space stands around `==`; a name that PyPI cannot have gives none.
pub proof fn law_pin_gives_name_and_version(
    name: Seq<char>,
    extras: Seq<char>,
    a: Seq<char>,
    b: Seq<char>,
    version: Seq<char>,
)
    requires
        is_bare(name) && is_bare(version) && is_extras(extras),
        all_space(a) && all_space(b),
        lacks(name, '=') && lacks(extras, '=') && lacks(version, '='),
        lacks(name, ';') && lacks(extras, ';') && lacks(version, ';'),
        lacks(name, '['),
        lacks(version, ',') && lacks(version, ' '),
        version[0] != '"' && version[0] != '\'' && version.last() != '"' && version.last() != '\'',
        find(name + extras + a + "=="@ + (b + version), "--hash"@) is None,
    ensures
        requirement(name + extras + a + "=="@ + (b + version)) == if valid_name(normal_name(name)) {
            Some(Entry { ecosystem: Ecosystem::Pypi, name: normal_name(name), version })
        } else {
            None
        },
{
    reveal_strlit("==");
    let named = name + extras;
    let left = named + a;
    let right = b + version;
    let line = left + "=="@ + right;
    let n = left.len() as int;
    assert(line =~= name + extras + a + "=="@ + (b + version));
    assert(named.last() == if extras.len() == 0 { name.last() } else { extras.last() });
    assert(is_bare(named));
    assert(line.last() == version.last());
    assert(is_bare(line));
    lemma_lacks_sum(name, extras, '=');
    lemma_space_lacks(a);
    lemma_space_lacks(b);
    lemma_lacks_sum(named, a, '=');
    lemma_lacks_sum(b, version, '=');
    assert(lacks(line, ';')) by {
        lemma_lacks_sum(name, extras, ';');
        lemma_lacks_sum(named, a, ';');
        lemma_lacks_sum(b, version, ';');
        lemma_lacks_sum(left, "=="@, ';');
        lemma_lacks_sum(left + "=="@, right, ';');
    }
    lemma_no_char(line, ';');
    law_trim_gives_back_bare_text(Seq::empty(), line, Seq::empty());
    lemma_two_signs(left, right);
    law_trim_gives_back_bare_text(Seq::empty(), named, a);
    law_trim_gives_back_bare_text(b, version, Seq::empty());
    assert(line.take(n) =~= left);
    assert(line.skip(n + 2) =~= right);
    lemma_lacks_contains(version, ',');
    lemma_lacks_contains(version, ' ');
    lemma_trim_char(Seq::empty(), version, '"');
    lemma_trim_char(Seq::empty(), version, '\'');
    assert(Seq::<char>::empty() + version + Seq::<char>::empty() =~= version);
    law_trim_gives_back_bare_text(Seq::empty(), name, Seq::empty());
    if extras.len() == 0 {
        assert(named =~= name);
        lemma_no_char(name, '[');
    } else {
        assert(named =~= name + seq!['['] + extras.skip(1));
        lemma_first_char(name, '[', extras.skip(1));
    }
}

proof fn lemma_lacks_sum(a: Seq<char>, b: Seq<char>, c: char)
    requires
        lacks(a, c) && lacks(b, c),
    ensures
        lacks(a + b, c),
{
    assert forall|i: int| 0 <= i < (a + b).len() implies #[trigger] (a + b)[i] != c by {
        if i < a.len() {
            assert((a + b)[i] == a[i]);
        } else {
            assert((a + b)[i] == b[i - a.len()]);
        }
    }
}

proof fn lemma_space_lacks(a: Seq<char>)
    requires
        all_space(a),
    ensures
        lacks(a, '=') && lacks(a, ';'),
{
    assert forall|i: int| 0 <= i < a.len() implies #[trigger] a[i] != '=' && a[i] != ';' by {
        assert(is_space(a[i]));
    }
}

proof fn lemma_lacks_contains(s: Seq<char>, c: char)
    requires
        lacks(s, c),
    ensures
        !s.contains(c),
{
    if s.contains(c) {
        let i = choose|i: int| 0 <= i < s.len() && s[i] == c;
        assert(s[i] == c);
    }
}

/// Two equals signs between texts that have none are found where they stand, and are not three.
proof fn lemma_two_signs(left: Seq<char>, right: Seq<char>)
    requires
        lacks(left, '=') && lacks(right, '='),
    ensures
        find(left + "=="@ + right, "=="@) == Some(left.len() as int),
        find(left + "=="@ + right, "==="@) is None,
{
    reveal_strlit("==");
    reveal_strlit("===");
    let line = left + "=="@ + right;
    let n = left.len() as int;
    lemma_first_text(left, "=="@, right);
    lemma_find(line, "==="@);
    if find(line, "==="@) is Some {
        let i = find(line, "==="@).unwrap();
        let piece = line.subrange(i, i + 3);
        assert(piece[0] == line[i] && piece[1] == line[i + 1] && piece[2] == line[i + 2]);
        if i < n {
            assert(line[i] == left[i]);
        } else if i == n {
            assert(line[n + 2] == right[0]);
        } else if i == n + 1 {
            assert(line[n + 2] == right[0]);
        } else {
            assert(line[i] == right[i - n - 2]);
        }
    }
}

/// A line that is not blank, has no comment and is no option pins what its requirement pins; blank
/// lines, comments and options pin nothing.
pub proof fn law_line_pins_its_requirement(line: Seq<char>, comment: Seq<char>)
    requires
        is_bare(line),
        lacks(line, '#'),
    ensures
        requirements_line(line) == if line[0] == '-' {
            None
        } else {
            requirement(line)
        },
        requirements_line(Seq::empty()) is None,
        requirements_line(seq!['#'] + comment) is None,
{
    lemma_no_char(line, '#');
    law_trim_gives_back_bare_text(Seq::empty(), line, Seq::empty());
    lemma_no_char(Seq::empty(), '#');
    lemma_first_char(Seq::empty(), '#', comment);
    assert(Seq::<char>::empty() + seq!['#'] + comment =~= seq!['#'] + comment);
}

} // verus!
