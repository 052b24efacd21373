//! What a `yarn.lock` lists: block by block, line by line, descriptor by descriptor.
use vstd::prelude::*;

use crate::entry::{Ecosystem, Entry};
use crate::lockfile::yarn::{
    block_entries, header_names, token_names, version_line, yarn_entries, yarn_name, yarn_state, YarnState,
};
use crate::text::{
    find_char, find_char_from, is_space, lemma_find_char, lemma_find_char_from, lines, split_char, trim,
    trim_end, trim_end_char, trim_start,
};
use crate::text_laws::{
    all_space, is_bare, lacks, law_pieces_come_one_by_one, law_trim_gives_back_bare_text, lemma_first_char,
    lemma_no_char, lemma_trim_char, lemma_trim_end_char_stops, lemma_trim_end_stops, lemma_trim_start_pads,
    lemma_trim_start_stops,
};

verus! {

// ---------------------------------------------------------------------------
// Blocks
// ---------------------------------------------------------------------------

/// A line that stands in a block: it is indented, empty, or a comment.
pub open spec fn in_block(line: Seq<char>) -> bool {
    line.len() == 0 || line[0] == '#' || line[0] == ' ' || line[0] == '\t'
}

/// A line that opens a block: it has text at its front that begins no comment.
pub open spec fn opens_block(line: Seq<char>) -> bool {
    line.len() > 0 && line[0] != '#' && line[0] != ' ' && line[0] != '\t'
}

/// An indented line that gives a version.
pub open spec fn gives_version(line: Seq<char>) -> bool {
    line.len() > 0 && line[0] != '#' && version_line(line) is Some
}

/// The lines that follow do not change what the first lines say.
proof fn lemma_state_of_front(a: Seq<Seq<char>>, b: Seq<Seq<char>>, n: nat)
    requires
        n <= a.len(),
    ensures
        yarn_state(a + b, n) == yarn_state(a, n),
    decreases n,
{
    if n > 0 {
        lemma_state_of_front(a, b, (n - 1) as nat);
        assert((a + b)[n - 1] == a[n - 1]);
    }
}

/// What the first `n` lines list.
spec fn listed_by(all: Seq<Seq<char>>, n: nat) -> Seq<Entry> {
    let st = yarn_state(all, n);
    st.done + block_entries(st.names, st.version)
}

/// From a line that opens a block on, the lines are read as if they stood alone.
proof fn lemma_state_of_back(a: Seq<Seq<char>>, b: Seq<Seq<char>>, k: nat)
    requires
        1 <= k <= b.len(),
        opens_block(b[0]),
    ensures
        yarn_state(a + b, a.len() + k).names == yarn_state(b, k).names,
        yarn_state(a + b, a.len() + k).version == yarn_state(b, k).version,
        yarn_state(a + b, a.len() + k).done == listed_by(a, a.len()) + yarn_state(b, k).done,
    decreases k,
{
    assert((a + b)[a.len() + k - 1] == b[k - 1]);
    if k == 1 {
        lemma_state_of_front(a, b, a.len());
        let none = Seq::<Seq<char>>::empty();
        assert(yarn_state(b, 0) == YarnState { names: none, version: None, done: Seq::empty() });
        assert(yarn_state(b, 1).done =~= Seq::<Entry>::empty());
        assert(yarn_state(a + b, a.len() + 1).done =~= listed_by(a, a.len()));
    } else {
        lemma_state_of_back(a, b, (k - 1) as nat);
        let before = yarn_state(b, (k - 1) as nat);
        assert(yarn_state(a + b, a.len() + k).done =~= listed_by(a, a.len()) + yarn_state(b, k).done);
    }
}

/// Lines in a block leave its names and the blocks before it; where none of them gives a version,
/// they leave that too.
proof fn lemma_lines_in_block(a: Seq<Seq<char>>, m: Seq<Seq<char>>, k: nat)
    requires
        k <= m.len(),
        forall|i: int| 0 <= i < m.len() ==> in_block(#[trigger] m[i]),
    ensures
        yarn_state(a + m, a.len() + k).names == yarn_state(a, a.len()).names,
        yarn_state(a + m, a.len() + k).done == yarn_state(a, a.len()).done,
        (forall|i: int| 0 <= i < k ==> !gives_version(#[trigger] m[i])) ==> yarn_state(a + m, a.len() + k)
            == yarn_state(a, a.len()),
    decreases k,
{
    if k == 0 {
        lemma_state_of_front(a, m, a.len());
    } else {
        lemma_lines_in_block(a, m, (k - 1) as nat);
        assert((a + m)[a.len() + k - 1] == m[k - 1]);
        assert(in_block(m[k - 1]));
    }
}

/// A line that opens a block is where a file can be cut: what is listed is what the lines before
/// it list, and then what the lines from it on list.
pub proof fn law_blocks_are_read_one_by_one(content: Seq<char>, front: Seq<char>, back: Seq<char>)
    requires
        lines(content) == lines(front) + lines(back),
        lines(back).len() > 0,
        opens_block(lines(back)[0]),
    ensures
        yarn_entries(content) == yarn_entries(front) + yarn_entries(back),
{
    let a = lines(front);
    let b = lines(back);
    lemma_state_of_back(a, b, b.len());
    assert(yarn_entries(content) =~= yarn_entries(front) + yarn_entries(back));
}

/// A block lists each name of its header with the version that its version line gives, in their
/// order, whatever other lines stand in it before or behind that one. Where several lines give
/// a version the last does.
pub proof fn law_block_lists_its_names_with_its_version(
    content: Seq<char>,
    header: Seq<char>,
    m: Seq<Seq<char>>,
    line: Seq<char>,
    n: Seq<Seq<char>>,
)
    requires
        lines(content) == seq![header] + m + seq![line] + n,
        opens_block(header),
        forall|i: int| 0 <= i < m.len() ==> in_block(#[trigger] m[i]),
        in_block(line) && gives_version(line),
        forall|i: int| 0 <= i < n.len() ==> in_block(#[trigger] n[i]) && !gives_version(n[i]),
    ensures
        yarn_entries(content).len() == header_names(header).len(),
        forall|i: int|
            0 <= i < header_names(header).len() ==> #[trigger] yarn_entries(content)[i] == (Entry {
                ecosystem: Ecosystem::Npm,
                name: header_names(header)[i],
                version: version_line(line)->Some_0,
            }),
{
    let one = seq![header];
    let two = one + m;
    let three = two + seq![line];
    let whole = three + n;
    assert(whole =~= lines(content));
    let none = Seq::<Seq<char>>::empty();
    assert(yarn_state(one, 0) == YarnState { names: none, version: None, done: Seq::empty() });
    assert(one[0] == header);
    assert(yarn_state(one, 1).done =~= Seq::<Entry>::empty());
    lemma_lines_in_block(one, m, m.len());
    lemma_state_of_front(two, seq![line], two.len());
    assert(three[two.len() as int] == line);
    lemma_lines_in_block(three, n, n.len());
    let st = yarn_state(whole, whole.len());
    assert(st.names == header_names(header));
    assert(st.version == version_line(line));
    assert(yarn_entries(content) =~= block_entries(st.names, st.version));
}

/// Lines that open no block list nothing, and neither does a block without a version line.
pub proof fn law_block_without_version_lists_nothing(
    content: Seq<char>,
    header: Seq<Seq<char>>,
    m: Seq<Seq<char>>,
)
    requires
        lines(content) == header + m,
        header.len() == 0 || header.len() == 1 && opens_block(header[0]) && forall|i: int|
            0 <= i < m.len() ==> !gives_version(#[trigger] m[i]),
        forall|i: int| 0 <= i < m.len() ==> in_block(#[trigger] m[i]),
    ensures
        yarn_entries(content) == Seq::<Entry>::empty(),
{
    let none = Seq::<Seq<char>>::empty();
    assert(yarn_state(header, 0) == YarnState { names: none, version: None, done: Seq::empty() });
    assert(yarn_state(header, header.len()).done =~= Seq::<Entry>::empty());
    lemma_lines_in_block(header, m, m.len());
    assert(yarn_entries(content) =~= Seq::<Entry>::empty());
}

// ---------------------------------------------------------------------------
// Version lines
// ---------------------------------------------------------------------------

/// The quotes that may stand around a text.
pub open spec fn is_quote(q: Seq<char>) -> bool {
    q == Seq::<char>::empty() || q == seq!['"']
}

/// A version line gives the version that it says: after `version` and a space, with or without a
/// colon between them, quoted or not, and whatever white space stands around.
pub proof fn law_version_line_gives_its_version(
    a: Seq<char>,
    gap: Seq<char>,
    q: Seq<char>,
    v: Seq<char>,
    b: Seq<char>,
)
    requires
        all_space(a) && all_space(gap) && all_space(b),
        is_quote(q),
        is_bare(v),
        v[0] != '"' && v.last() != '"',
    ensures
        version_line(a + ("version "@ + gap + (q + v + q)) + b) == Some(v),
        version_line(a + ("version: "@ + gap + (q + v + q)) + b) == Some(v),
{
    reveal_strlit("version ");
    reveal_strlit("version: ");
    let quoted = q + v + q;
    assert(is_bare(quoted)) by {
        assert(quoted.last() == if q.len() == 0 { v.last() } else { '"' });
    }
    lemma_trim_char(q, v, '"');
    law_trim_gives_back_bare_text(gap, quoted, Seq::empty());
    let plain = "version "@ + gap + quoted;
    assert(plain.last() == quoted.last());
    assert(is_bare(plain));
    law_trim_gives_back_bare_text(a, plain, b);
    assert("version "@.is_prefix_of(plain)) by {
        assert(plain.subrange(0, "version "@.len() as int) =~= "version "@);
    }
    assert(plain.skip("version "@.len() as int) =~= gap + quoted);
    let colon = "version: "@ + gap + quoted;
    assert(colon.last() == quoted.last());
    assert(is_bare(colon));
    law_trim_gives_back_bare_text(a, colon, b);
    assert(colon[7] == ':');
    assert("version "@[7] == ' ');
    assert("version: "@.is_prefix_of(colon)) by {
        assert(colon.subrange(0, "version: "@.len() as int) =~= "version: "@);
    }
    assert(colon.skip("version: "@.len() as int) =~= gap + quoted);
}

/// Only a line that begins with `version` and a space or `version:` and a space gives one.
pub proof fn law_other_lines_give_no_version(line: Seq<char>)
    ensures
        version_line(line) is Some <==> "version "@.is_prefix_of(trim(line)) || "version: "@.is_prefix_of(
            trim(line),
        ),
{
}

// ---------------------------------------------------------------------------
// Headers
// ---------------------------------------------------------------------------

/// The name in a descriptor is what stands before the `@` of its range; an `@` at the front
/// belongs to the name. Without a range there is no name.
pub proof fn law_descriptor_gives_its_name(name: Seq<char>, range: Seq<char>)
    requires
        name.len() > 0,
        forall|i: int| 0 < i < name.len() ==> #[trigger] name[i] != '@',
    ensures
        yarn_name(name + seq!['@'] + range) == Some(name),
        yarn_name(name) is None,
        yarn_name(Seq::empty()) is None,
{
    let token = name + seq!['@'] + range;
    let start: int = if name[0] == '@' {
        1
    } else {
        0
    };
    assert(token[0] == name[0]);
    lemma_find_char_from(token, '@', start);
    lemma_find_char_from(name, '@', start);
    lemma_find_char_from(Seq::empty(), '@', 0);
    assert(token[name.len() as int] == '@');
    let i = find_char_from(token, '@', start).unwrap();
    if i < name.len() {
        assert(token[i] == name[i]);
    }
    assert(token.take(name.len() as int) =~= name);
}

/// A header with one descriptor gives its name, quoted or not.
pub proof fn law_header_gives_its_name(q: Seq<char>, name: Seq<char>, range: Seq<char>)
    requires
        is_quote(q),
        name.len() > 0 && range.len() > 0,
        !is_space(name[0]) && name[0] != '"',
        forall|i: int| 0 < i < name.len() ==> #[trigger] name[i] != '@',
        lacks(name, ',') && lacks(range, ','),
        !is_space(range.last()) && range.last() != '"' && range.last() != ':',
    ensures
        header_names(q + (name + seq!['@'] + range) + q + seq![':']) == seq![name],
        header_names(q + (name + seq!['@'] + range) + q) == seq![name],
{
    let token = name + seq!['@'] + range;
    let quoted = q + token + q;
    assert(token.last() == range.last());
    assert(token[0] == name[0]);
    assert(quoted.last() == if q.len() == 0 { range.last() } else { '"' });
    assert(is_bare(quoted));
    let line = quoted + seq![':'];
    assert(line.drop_last() =~= quoted);
    assert(trim_end_char(quoted, ':') == quoted);
    assert(trim_end_char(line, ':') == quoted);
    law_trim_gives_back_bare_text(Seq::empty(), quoted, Seq::empty());
    assert(lacks(quoted, ','));
    lemma_no_char(quoted, ',');
    lemma_trim_char(q, token, '"');
    law_descriptor_gives_its_name(name, range);
    reveal_with_fuel(token_names, 2);
    assert(header_names(quoted) =~= seq![name]);
}

/// The names in all descriptors of a list.
spec fn names_of(tokens: Seq<Seq<char>>) -> Seq<Seq<char>> {
    token_names(tokens, tokens.len())
}

proof fn lemma_names_of_front(s: Seq<Seq<char>>, t: Seq<Seq<char>>, n: nat)
    requires
        n <= s.len(),
    ensures
        token_names(s + t, n) == token_names(s, n),
    decreases n,
{
    if n > 0 {
        lemma_names_of_front(s, t, (n - 1) as nat);
        assert((s + t)[n - 1] == s[n - 1]);
    }
}

proof fn lemma_names_of_both(s: Seq<Seq<char>>, t: Seq<Seq<char>>, n: nat)
    requires
        n <= t.len(),
    ensures
        token_names(s + t, s.len() + n) == names_of(s) + token_names(t, n),
    decreases n,
{
    if n == 0 {
        lemma_names_of_front(s, t, s.len());
        assert(names_of(s) + token_names(t, 0) =~= names_of(s));
    } else {
        lemma_names_of_both(s, t, (n - 1) as nat);
        assert((s + t)[s.len() + n - 1] == t[n - 1]);
        assert(token_names(s + t, s.len() + n) =~= names_of(s) + token_names(t, n));
    }
}

/// White space in front of a list of descriptors does not change its names.
proof fn lemma_names_after_space(w: Seq<char>, y: Seq<char>)
    requires
        all_space(w),
    ensures
        names_of(split_char(w + y, ',')) == names_of(split_char(y, ',')),
{
    assert(lacks(w, ',')) by {
        assert forall|i: int| 0 <= i < w.len() implies #[trigger] w[i] != ',' by {
            assert(is_space(w[i]));
        }
    }
    lemma_find_char(y, ',');
    let first = match find_char(y, ',') {
        Some(i) => y.take(i),
        None => y,
    };
    assert(trim(w + first) == trim(first)) by {
        lemma_trim_start_pads(w, first);
    }
    let p = split_char(y, ',');
    let s = split_char(w + y, ',');
    match find_char(y, ',') {
        Some(i) => {
            let rest = y.skip(i + 1);
            assert(w + y =~= (w + first) + seq![','] + rest);
            assert(lacks(w + first, ','));
            lemma_first_char(w + first, ',', rest);
            assert(s =~= seq![w + first] + split_char(rest, ','));
            lemma_names_of_both(seq![w + first], split_char(rest, ','), split_char(rest, ',').len());
            lemma_names_of_both(seq![first], split_char(rest, ','), split_char(rest, ',').len());
        },
        None => {
            assert(lacks(w + y, ','));
            lemma_no_char(w + y, ',');
        },
    }
    reveal_with_fuel(token_names, 2);
    assert(seq![w + first][0] == w + first);
    assert(seq![first][0] == first);
    assert(names_of(seq![w + first]) == names_of(seq![first]));
}

/// The names in a header are those of its descriptors one by one: commas part them, and white
/// space behind a comma does not matter.
pub proof fn law_header_gives_all_names(a: Seq<char>, w: Seq<char>, b: Seq<char>)
    requires
        a.len() > 0,
        a.last() != ':' && !is_space(a.last()),
        all_space(w),
        b.len() > 0,
        !is_space(b[0]),
        b[0] != ':',
    ensures
        header_names(a + seq![','] + (w + b)) == header_names(a) + header_names(b),
{
    let c = trim_end_char(b, ':');
    lemma_trim_end_char_stops(a, ',', w + b, ':');
    lemma_trim_end_char_keeps_front(b, ':');
    lemma_trim_end_char_behind(w, b, ':');
    lemma_trim_start_stops(a, ',', w + c);
    lemma_trim_end_stops(trim_start(a), ',', w + c);
    lemma_trim_start_keeps_last(a);
    lemma_trim_end_keeps_front(c);
    lemma_trim_end_behind(w, c);
    let tail = trim_end(c);
    assert(trim_start(c) == c);
    assert(trim(c) == tail);
    law_pieces_come_one_by_one(trim_start(a), ',', w + tail);
    lemma_names_after_space(w, tail);
    lemma_names_of_both(
        split_char(trim_start(a), ','),
        split_char(w + tail, ','),
        split_char(w + tail, ',').len(),
    );
}

/// Trimming the end keeps a first character that is not trimmed.
proof fn lemma_trim_end_char_keeps_front(b: Seq<char>, c: char)
    requires
        b.len() > 0,
        b[0] != c,
    ensures
        trim_end_char(b, c).len() > 0,
        trim_end_char(b, c)[0] == b[0],
    decreases b.len(),
{
    if b.last() == c {
        lemma_trim_end_char_keeps_front(b.drop_last(), c);
    }
}

/// Trimming the end leaves what stands in front of text of which something is left.
proof fn lemma_trim_end_char_behind(w: Seq<char>, b: Seq<char>, c: char)
    requires
        b.len() > 0,
        b[0] != c,
    ensures
        trim_end_char(w + b, c) == w + trim_end_char(b, c),
{
    lemma_trim_end_char_stops(w, b[0], b.skip(1), c);
    lemma_trim_end_char_stops(Seq::empty(), b[0], b.skip(1), c);
    assert(w + seq![b[0]] + b.skip(1) =~= w + b);
    assert(Seq::<char>::empty() + seq![b[0]] + b.skip(1) =~= b);
    let t = trim_end_char(b.skip(1), c);
    assert(w + seq![b[0]] + t =~= w + (Seq::<char>::empty() + seq![b[0]] + t));
}

/// Trimming the end keeps a first character that is no white space.
proof fn lemma_trim_end_keeps_front(b: Seq<char>)
    requires
        b.len() > 0,
        !is_space(b[0]),
    ensures
        trim_end(b).len() > 0,
        trim_end(b)[0] == b[0],
    decreases b.len(),
{
    if is_space(b.last()) {
        lemma_trim_end_keeps_front(b.drop_last());
    }
}

/// Trimming the end leaves what stands in front of text of which something is left.
proof fn lemma_trim_end_behind(w: Seq<char>, b: Seq<char>)
    requires
        b.len() > 0,
        !is_space(b[0]),
    ensures
        trim_end(w + b) == w + trim_end(b),
{
    lemma_trim_end_stops(w, b[0], b.skip(1));
    lemma_trim_end_stops(Seq::empty(), b[0], b.skip(1));
    assert(w + seq![b[0]] + b.skip(1) =~= w + b);
    assert(Seq::<char>::empty() + seq![b[0]] + b.skip(1) =~= b);
    let t = trim_end(b.skip(1));
    assert(w + seq![b[0]] + t =~= w + (Seq::<char>::empty() + seq![b[0]] + t));
}

/// Trimming the front of text that ends with no white space is all that trimming does.
proof fn lemma_trim_start_keeps_last(a: Seq<char>)
    requires
        a.len() > 0,
        !is_space(a.last()),
    ensures
        trim(a) == trim_start(a),
        trim_start(a).len() > 0,
        trim_start(a).last() == a.last(),
    decreases a.len(),
{
    if is_space(a[0]) {
        assert(a.len() > 1);
        lemma_trim_start_keeps_last(a.drop_first());
    }
}

} // verus!
