//! What holds of trimming, searching and splitting text, whatever the text is.
use vstd::prelude::*;

use crate::text::{
    after_last, before_char, find, find_char, is_space, lemma_find, lemma_find_char, lines, match_at, rfind_from,
    split_char, text_before, trim, trim_char, trim_end, trim_end_char, trim_start, trim_start_char, without_return,
};

verus! {

/// Text that is white space throughout.
pub open spec fn all_space(s: Seq<char>) -> bool {
    forall|i: int| 0 <= i < s.len() ==> is_space(#[trigger] s[i])
}

/// Text in which a character does not occur.
pub open spec fn lacks(s: Seq<char>, c: char) -> bool {
    forall|i: int| 0 <= i < s.len() ==> #[trigger] s[i] != c
}

/// Text that neither begins nor ends with white space, and is not empty.
pub open spec fn is_bare(s: Seq<char>) -> bool {
    s.len() > 0 && !is_space(s[0]) && !is_space(s.last())
}

// ---------------------------------------------------------------------------
// Trimming
// ---------------------------------------------------------------------------

/// White space in front is trimmed away.
pub proof fn lemma_trim_start_pads(a: Seq<char>, s: Seq<char>)
    requires
        all_space(a),
    ensures
        trim_start(a + s) == trim_start(s),
    decreases a.len(),
{
    if a.len() == 0 {
        assert(a + s =~= s);
    } else {
        assert((a + s).drop_first() =~= a.drop_first() + s);
        assert(all_space(a.drop_first()));
        lemma_trim_start_pads(a.drop_first(), s);
        assert(is_space((a + s)[0]));
    }
}

/// White space behind is trimmed away.
pub proof fn lemma_trim_end_pads(s: Seq<char>, b: Seq<char>)
    requires
        all_space(b),
    ensures
        trim_end(s + b) == trim_end(s),
    decreases b.len(),
{
    if b.len() == 0 {
        assert(s + b =~= s);
    } else {
        assert((s + b).drop_last() =~= s + b.drop_last());
        assert(all_space(b.drop_last()));
        lemma_trim_end_pads(s, b.drop_last());
        assert((s + b).last() == b.last());
        assert(is_space(b[b.len() - 1]));
    }
}

/// Trimming the front leaves what follows a character that is no white space.
pub proof fn lemma_trim_start_stops(s: Seq<char>, c: char, t: Seq<char>)
    requires
        !is_space(c),
    ensures
        trim_start(s + seq![c] + t) == trim_start(s) + seq![c] + t,
    decreases s.len(),
{
    let whole = s + seq![c] + t;
    if s.len() > 0 && is_space(s[0]) {
        assert(whole.drop_first() =~= s.drop_first() + seq![c] + t);
        lemma_trim_start_stops(s.drop_first(), c, t);
    } else if s.len() == 0 {
        assert(whole[0] == c);
    } else {
        assert(whole[0] == s[0]);
    }
}

/// Trimming the end leaves what stands before a character that is no white space.
pub proof fn lemma_trim_end_stops(s: Seq<char>, c: char, t: Seq<char>)
    requires
        !is_space(c),
    ensures
        trim_end(s + seq![c] + t) == s + seq![c] + trim_end(t),
    decreases t.len(),
{
    let whole = s + seq![c] + t;
    if t.len() > 0 && is_space(t.last()) {
        assert(whole.drop_last() =~= s + seq![c] + t.drop_last());
        lemma_trim_end_stops(s, c, t.drop_last());
        assert(whole.last() == t.last());
    } else if t.len() == 0 {
        assert(whole.last() == c);
        assert(whole =~= s + seq![c] + trim_end(t));
    } else {
        assert(whole.last() == t.last());
    }
}

/// Trimming takes white space off both ends and nothing else: what is left is empty or begins and
/// ends with something else, and what was taken off is white space.
pub proof fn law_trim_takes_off_white_space(s: Seq<char>)
    ensures
        trim(s).len() > 0 ==> is_bare(trim(s)),
        exists|a: Seq<char>, b: Seq<char>| s == #[trigger] (a + trim(s) + b) && all_space(a) && all_space(b),
{
    let t = trim_start(s);
    let a = lemma_trim_start_rest(s);
    let b = lemma_trim_end_rest(t);
    assert(s =~= a + trim(s) + b);
    if trim(s).len() > 0 {
        assert(t[0] == trim(s)[0]);
    }
}

/// What trimming the front takes off.
proof fn lemma_trim_start_rest(s: Seq<char>) -> (a: Seq<char>)
    ensures
        s == a + trim_start(s),
        all_space(a),
        trim_start(s).len() > 0 ==> !is_space(trim_start(s)[0]),
    decreases s.len(),
{
    if s.len() > 0 && is_space(s[0]) {
        let more = lemma_trim_start_rest(s.drop_first());
        let a = seq![s[0]] + more;
        assert(s =~= seq![s[0]] + s.drop_first());
        assert(s =~= a + trim_start(s));
        assert forall|i: int| 0 <= i < a.len() implies is_space(#[trigger] a[i]) by {
            if i > 0 {
                assert(a[i] == more[i - 1]);
            }
        }
        a
    } else {
        assert(s =~= Seq::<char>::empty() + s);
        Seq::empty()
    }
}

/// What trimming the end takes off.
proof fn lemma_trim_end_rest(s: Seq<char>) -> (b: Seq<char>)
    ensures
        s == trim_end(s) + b,
        all_space(b),
        trim_end(s).len() > 0 ==> !is_space(trim_end(s).last()),
    decreases s.len(),
{
    if s.len() > 0 && is_space(s.last()) {
        let more = lemma_trim_end_rest(s.drop_last());
        let b = more.push(s.last());
        assert(s =~= s.drop_last().push(s.last()));
        assert(s =~= trim_end(s) + b);
        assert forall|i: int| 0 <= i < b.len() implies is_space(#[trigger] b[i]) by {
            if i < more.len() {
                assert(b[i] == more[i]);
            }
        }
        b
    } else {
        assert(s =~= s + Seq::<char>::empty());
        Seq::empty()
    }
}

/// Text that is bare stays as it is, and white space around it goes.
pub proof fn law_trim_gives_back_bare_text(a: Seq<char>, s: Seq<char>, b: Seq<char>)
    requires
        all_space(a),
        all_space(b),
        s.len() > 0 ==> is_bare(s),
    ensures
        trim(a + s + b) == s,
        trim(s) == s,
        trim(a + s) == s,
        trim(s + b) == s,
{
    if s.len() == 0 {
        assert(a + s + b =~= a + b);
        assert(a + s =~= a);
        assert(s + b =~= b);
        assert(s =~= Seq::empty());
        lemma_trim_start_pads(a, b);
        lemma_all_space_goes(b);
        lemma_all_space_goes(a);
    } else {
        lemma_trim_start_pads(a, s + b);
        assert(a + (s + b) =~= a + s + b);
        lemma_trim_start_pads(a, s);
        assert((s + b)[0] == s[0]);
        assert(trim_start(s + b) == s + b);
        assert(trim_start(s) == s);
        lemma_trim_end_pads(s, b);
        assert(trim_end(s) == s);
    }
}

/// Of white space nothing is left.
proof fn lemma_all_space_goes(b: Seq<char>)
    requires
        all_space(b),
    ensures
        trim_start(b) == Seq::<char>::empty(),
        trim(b) == Seq::<char>::empty(),
{
    assert(b + Seq::<char>::empty() =~= b);
    lemma_trim_start_pads(b, Seq::empty());
}

/// Copies of a character at the ends are trimmed away; the text between them stays.
pub proof fn lemma_trim_char(q: Seq<char>, s: Seq<char>, c: char)
    requires
        s.len() > 0,
        s[0] != c,
        s.last() != c,
        q == Seq::<char>::empty() || q == seq![c],
    ensures
        trim_char(q + s + q, c) == s,
{
    let whole = q + s + q;
    assert(trim_start_char(s, c) == s);
    assert(trim_end_char(s, c) == s);
    if q.len() == 0 {
        assert(whole =~= s);
    } else {
        let back = s + q;
        assert(whole.drop_first() =~= back);
        assert(back[0] == s[0]);
        assert(trim_start_char(back, c) == back);
        assert(trim_start_char(whole, c) == back);
        assert(back.drop_last() =~= s);
        assert(back.last() == c);
        assert(trim_end_char(back, c) == trim_end_char(s, c));
    }
}

/// Trimming a character off the end leaves what stands before another one.
pub proof fn lemma_trim_end_char_stops(s: Seq<char>, d: char, t: Seq<char>, c: char)
    requires
        c != d,
    ensures
        trim_end_char(s + seq![d] + t, c) == s + seq![d] + trim_end_char(t, c),
    decreases t.len(),
{
    let whole = s + seq![d] + t;
    if t.len() > 0 && t.last() == c {
        assert(whole.drop_last() =~= s + seq![d] + t.drop_last());
        lemma_trim_end_char_stops(s, d, t.drop_last(), c);
    } else if t.len() == 0 {
        assert(whole.last() == d);
        assert(whole =~= s + seq![d] + trim_end_char(t, c));
    } else {
        assert(whole.last() == t.last());
    }
}

/// Trimming a character off the end takes off its copies and nothing else.
pub proof fn law_trim_end_char_takes_off_copies(s: Seq<char>, c: char)
    ensures
        trim_end_char(s, c).is_prefix_of(s),
        trim_end_char(s, c).len() > 0 ==> trim_end_char(s, c).last() != c,
        forall|i: int| trim_end_char(s, c).len() <= i < s.len() ==> #[trigger] s[i] == c,
    decreases s.len(),
{
    if s.len() > 0 && s.last() == c {
        let front = s.drop_last();
        law_trim_end_char_takes_off_copies(front, c);
        let t = trim_end_char(s, c);
        assert(s.subrange(0, t.len() as int) =~= front.subrange(0, t.len() as int));
        assert forall|i: int| t.len() <= i < s.len() implies #[trigger] s[i] == c by {
            if i < front.len() {
                assert(s[i] == front[i]);
            }
        }
    } else {
        assert(s.subrange(0, s.len() as int) =~= s);
    }
}

/// Texts are ordered by the first character in which they differ, and a text stands before those
/// that go on from it.
pub proof fn law_first_difference_orders_texts(p: Seq<char>, c: char, x: Seq<char>, d: char, y: Seq<char>)
    requires
        c < d,
    ensures
        text_before(p + seq![c] + x, p + seq![d] + y),
        !text_before(p + seq![d] + y, p + seq![c] + x),
        text_before(p, p + seq![c] + x),
        !text_before(p + seq![c] + x, p),
    decreases p.len(),
{
    let a = p + seq![c] + x;
    let b = p + seq![d] + y;
    if p.len() > 0 {
        assert(a.drop_first() =~= p.drop_first() + seq![c] + x);
        assert(b.drop_first() =~= p.drop_first() + seq![d] + y);
        assert(a[0] == p[0] && b[0] == p[0]);
        law_first_difference_orders_texts(p.drop_first(), c, x, d, y);
    } else {
        assert(a[0] == c && b[0] == d);
    }
}

// ---------------------------------------------------------------------------
// Searching
// ---------------------------------------------------------------------------

/// The first `c` is the one before which there is none.
pub proof fn lemma_first_char(a: Seq<char>, c: char, b: Seq<char>)
    requires
        lacks(a, c),
    ensures
        find_char(a + seq![c] + b, c) == Some(a.len() as int),
        (a + seq![c] + b).take(a.len() as int) == a,
        (a + seq![c] + b).skip(a.len() + 1int) == b,
        before_char(a + seq![c] + b, c) == a,
{
    let s = a + seq![c] + b;
    lemma_find_char(s, c);
    assert(s[a.len() as int] == c);
    assert(s.take(a.len() as int) =~= a);
    assert(s.skip(a.len() + 1int) =~= b);
    let i = find_char(s, c).unwrap();
    if i < a.len() {
        assert(s[i] == a[i]);
    }
}

/// Where a character does not occur it is not found.
pub proof fn lemma_no_char(a: Seq<char>, c: char)
    requires
        lacks(a, c),
    ensures
        find_char(a, c) is None,
        before_char(a, c) == a,
        split_char(a, c) == seq![a],
{
    lemma_find_char(a, c);
}

/// Where a text stands, and at which position: behind what stands before it.
pub proof fn lemma_stands(a: Seq<char>, p: Seq<char>, b: Seq<char>)
    ensures
        match_at(a + p + b, p, a.len() as int),
{
    assert((a + p + b).subrange(a.len() as int, (a.len() + p.len()) as int) =~= p);
}

/// A text is first found where its first character comes first.
pub proof fn lemma_first_text(a: Seq<char>, p: Seq<char>, b: Seq<char>)
    requires
        p.len() > 0,
        lacks(a, p[0]),
    ensures
        find(a + p + b, p) == Some(a.len() as int),
        (a + p + b).take(a.len() as int) == a,
        (a + p + b).skip((a.len() + p.len()) as int) == b,
{
    let s = a + p + b;
    assert(s.take(a.len() as int) =~= a);
    assert(s.skip((a.len() + p.len()) as int) =~= b);
    lemma_stands(a, p, b);
    assert forall|j: int| 0 <= j < a.len() implies !match_at(s, p, j) by {
        assert(s[j] == a[j]);
        if match_at(s, p, j) {
            assert(s.subrange(j, j + p.len())[0] == s[j]);
        }
    }
    lemma_first_match(s, p, a.len() as int);
}

/// A text is found at the first position at which it stands.
pub proof fn lemma_first_match(s: Seq<char>, p: Seq<char>, i: int)
    requires
        match_at(s, p, i),
        forall|j: int| 0 <= j < i ==> !match_at(s, p, j),
    ensures
        find(s, p) == Some(i),
{
    lemma_find(s, p);
}

/// A text that cannot overlap itself is first found behind a text that does not have it: its first
/// character, or its last, stands nowhere else in it.
pub proof fn lemma_first_after(a: Seq<char>, p: Seq<char>, b: Seq<char>)
    requires
        p.len() > 0,
        find(a, p) is None,
        (forall|i: int| 0 < i < p.len() ==> #[trigger] p[i] != p[0]) || (forall|i: int|
            0 <= i < p.len() - 1 ==> #[trigger] p[i] != p.last()),
    ensures
        find(a + p + b, p) == Some(a.len() as int),
        (a + p + b).take(a.len() as int) == a,
        (a + p + b).skip((a.len() + p.len()) as int) == b,
{
    let s = a + p + b;
    let n = p.len() as int;
    assert(s.take(a.len() as int) =~= a);
    assert(s.skip((a.len() + p.len()) as int) =~= b);
    lemma_stands(a, p, b);
    assert forall|j: int| 0 <= j < a.len() implies !match_at(s, p, j) by {
        if match_at(s, p, j) {
            let piece = s.subrange(j, j + n);
            if j + n <= a.len() {
                lemma_find(a, p);
                assert(a.subrange(j, j + n) =~= piece);
                assert(match_at(a, p, j));
            } else {
                let k = a.len() - j;
                assert(piece[k] == s[a.len() as int]);
                assert(s[a.len() as int] == p[0]);
                assert(piece[n - 1] == s[j + n - 1]);
                assert(s[j + n - 1] == p[j + n - 1 - a.len()]);
            }
        }
    }
    lemma_first_match(s, p, a.len() as int);
}

/// The last position of a text.
pub proof fn lemma_rfind_from(s: Seq<char>, p: Seq<char>, from: int)
    ensures
        match rfind_from(s, p, from) {
            Some(i) => 0 <= i <= from && match_at(s, p, i) && forall|j: int| i < j <= from ==> !match_at(s, p, j),
            None => forall|j: int| j <= from ==> !match_at(s, p, j),
        },
    decreases from + 1,
{
    if from >= 0 && !match_at(s, p, from) {
        lemma_rfind_from(s, p, from - 1);
    }
}

/// What follows the last copy of a text is what stands behind it, where no other copy does and
/// copies do not overlap: the text begins with a character that it has nowhere else.
pub proof fn lemma_after_last(a: Seq<char>, p: Seq<char>, b: Seq<char>)
    requires
        p.len() > 0,
        forall|i: int| 0 < i < p.len() ==> #[trigger] p[i] != p[0],
        find(b, p) is None,
    ensures
        after_last(a + p + b, p) == b,
        after_last(b, p) == b,
{
    let s = a + p + b;
    lemma_stands(a, p, b);
    lemma_rfind_from(s, p, s.len() as int);
    lemma_rfind_from(b, p, b.len() as int);
    lemma_find(b, p);
    let i = rfind_from(s, p, s.len() as int).unwrap();
    if i > a.len() {
        assert(s.subrange(i, i + p.len())[0] == s[i]);
        if i < a.len() + p.len() {
            assert(s[i] == p[i - a.len()]);
        } else {
            let j = i - a.len() - p.len();
            assert(b.subrange(j, j + p.len()) =~= s.subrange(i, i + p.len()));
            assert(match_at(b, p, j));
        }
    }
    assert(s.skip((a.len() + p.len()) as int) =~= b);
}

/// A text either has a last copy of another, with what stands before and behind it, or none.
pub proof fn lemma_has_last(s: Seq<char>, p: Seq<char>)
    requires
        p.len() > 0,
    ensures
        find(s, p) is Some ==> s == s.take(s.len() - after_last(s, p).len() - p.len()) + p + after_last(s, p),
        find(s, p) is None ==> after_last(s, p) == s,
        find(after_last(s, p), p) is None,
        after_last(s, p).len() <= s.len(),
{
    lemma_rfind_from(s, p, s.len() as int);
    lemma_find(s, p);
    let t = after_last(s, p);
    lemma_find(t, p);
    match rfind_from(s, p, s.len() as int) {
        Some(i) => {
            assert(s =~= s.take(i) + p + t) by {
                assert(s.subrange(i, i + p.len()) == p);
                assert forall|k: int| 0 <= k < s.len() implies #[trigger] s[k] == (s.take(i) + p + t)[k] by {
                    if i <= k < i + p.len() {
                        assert(s.subrange(i, i + p.len())[k - i] == s[k]);
                    }
                }
            }
            if find(t, p) is Some {
                let j = find(t, p).unwrap();
                assert(s.subrange(i + p.len() + j, i + p.len() + j + p.len()) =~= t.subrange(j, j + p.len()));
                assert(match_at(s, p, i + p.len() + j));
            }
        },
        None => {
            if find(s, p) is Some {
                assert(match_at(s, p, find(s, p).unwrap()));
            }
        },
    }
}

// ---------------------------------------------------------------------------
// Pieces and lines
// ---------------------------------------------------------------------------

/// The pieces of two texts with the separator between them are those of the first and then those
/// of the second.
pub proof fn law_pieces_come_one_by_one(a: Seq<char>, c: char, b: Seq<char>)
    ensures
        split_char(a + seq![c] + b, c) == split_char(a, c) + split_char(b, c),
    decreases a.len(),
{
    let s = a + seq![c] + b;
    lemma_find_char(a, c);
    match find_char(a, c) {
        Some(i) => {
            let front = a.take(i);
            let back = a.skip(i + 1);
            assert(s =~= front + seq![c] + (back + seq![c] + b));
            lemma_first_char(front, c, back + seq![c] + b);
            law_pieces_come_one_by_one(back, c, b);
            assert(split_char(s, c) =~= split_char(a, c) + split_char(b, c));
        },
        None => {
            lemma_first_char(a, c, b);
            assert(split_char(s, c) =~= split_char(a, c) + split_char(b, c));
        },
    }
}

/// A line that ends with a line feed comes first, without the carriage return before that; the
/// lines of what follows come after it.
pub proof fn law_lines_come_one_by_one(line: Seq<char>, rest: Seq<char>)
    requires
        lacks(line, '\n'),
    ensures
        lines(line + seq!['\n'] + rest) == seq![without_return(line)] + lines(rest),
        line.len() > 0 ==> lines(line) == seq![line],
        lines(Seq::empty()) == Seq::<Seq<char>>::empty(),
{
    lemma_first_char(line, '\n', rest);
    lemma_no_char(line, '\n');
}

} // verus!
