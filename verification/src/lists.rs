//! Lists: what a filter keeps, what is left without repetitions, and parts of bounded length.
use vstd::prelude::*;

verus! {

/// The characters of each string of a list.
pub open spec fn texts(v: Seq<String>) -> Seq<Seq<char>> {
    Seq::new(v.len(), |i: int| v[i]@)
}

/// Whether a list of strings holds `s`.
pub fn holds_text(list: &[String], s: &String) -> (r: bool)
    ensures
        r == texts(list@).contains(s@),
{
    let mut i: usize = 0;
    while i < list.len()
        invariant
            i <= list.len(),
            forall|k: int| 0 <= k < i ==> #[trigger] texts(list@)[k] != s@,
        decreases list.len() - i,
    {
        if list[i] == *s {
            assert(texts(list@)[i as int] == s@);
            return true;
        }
        i += 1;
    }
    false
}

/// One more item: it is kept where `keep` holds of it.
pub proof fn lemma_filter_next<T>(s: Seq<T>, keep: spec_fn(T) -> bool, i: int)
    requires
        0 <= i < s.len(),
    ensures
        s.take(i + 1).filter(keep) == if keep(s[i]) {
            s.take(i).filter(keep).push(s[i])
        } else {
            s.take(i).filter(keep)
        },
{
    reveal(Seq::filter);
    assert(s.take(i + 1).drop_last() =~= s.take(i));
    assert(s.take(i + 1).last() == s[i]);
}

/// Nothing is kept of no item, and all that is kept is kept of all items.
pub proof fn lemma_filter_ends<T>(s: Seq<T>, keep: spec_fn(T) -> bool)
    ensures
        s.take(0).filter(keep) == Seq::<T>::empty(),
        s.take(s.len() as int).filter(keep) == s.filter(keep),
{
    reveal(Seq::filter);
    assert(s.take(0) =~= Seq::empty());
    assert(s.take(s.len() as int) =~= s);
}

/// An item is kept if and only if it stands in the list and `keep` holds of it.
pub proof fn lemma_filter_contains<T>(s: Seq<T>, keep: spec_fn(T) -> bool, x: T)
    ensures
        s.filter(keep).contains(x) <==> s.contains(x) && keep(x),
    decreases s.len(),
{
    reveal(Seq::filter);
    if s.len() > 0 {
        let front = s.drop_last();
        lemma_filter_contains(front, keep, x);
        let kept = front.filter(keep);
        if front.contains(x) {
            let i = choose|i: int| 0 <= i < front.len() && front[i] == x;
            assert(s[i] == x);
        }
        if s.contains(x) && x != s.last() {
            let i = choose|i: int| 0 <= i < s.len() && s[i] == x;
            assert(front[i] == x);
        }
        assert(s[s.len() - 1] == s.last());
        if keep(s.last()) {
            let all = kept.push(s.last());
            assert(all[kept.len() as int] == s.last());
            if kept.contains(x) {
                let i = choose|i: int| 0 <= i < kept.len() && kept[i] == x;
                assert(all[i] == x);
            }
            if all.contains(x) && x != s.last() {
                let i = choose|i: int| 0 <= i < all.len() && all[i] == x;
                assert(kept[i] == x);
            }
        }
    }
}

/// Two conditions that agree on the items of a list keep the same of it.
pub proof fn lemma_filter_same<T>(s: Seq<T>, p: spec_fn(T) -> bool, q: spec_fn(T) -> bool)
    requires
        forall|i: int| 0 <= i < s.len() ==> p(#[trigger] s[i]) == q(s[i]),
    ensures
        s.filter(p) == s.filter(q),
    decreases s.len(),
{
    reveal(Seq::filter);
    if s.len() > 0 {
        let front = s.drop_last();
        assert forall|i: int| 0 <= i < front.len() implies p(#[trigger] front[i]) == q(front[i]) by {
            assert(front[i] == s[i]);
        }
        lemma_filter_same(front, p, q);
        assert(s[s.len() - 1] == s.last());
    }
}

// ---------------------------------------------------------------------------
// Parts of bounded length
// ---------------------------------------------------------------------------

/// The list cut into parts of `n` items; the last part may be shorter.
pub open spec fn chunks<T>(s: Seq<T>, n: nat) -> Seq<Seq<T>>
    decreases s.len(),
{
    if s.len() == 0 || n == 0 {
        Seq::empty()
    } else if s.len() <= n {
        seq![s]
    } else {
        seq![s.take(n as int)] + chunks(s.skip(n as int), n)
    }
}

/// The items of all parts, in order.
pub open spec fn joined_parts<T>(parts: Seq<Seq<T>>) -> Seq<T>
    decreases parts.len(),
{
    if parts.len() == 0 {
        Seq::empty()
    } else {
        parts[0] + joined_parts(parts.drop_first())
    }
}

/// Cutting a list loses nothing, repeats nothing and keeps the order; no part is empty, none
/// is longer than `n`, and only the last may be shorter.
pub proof fn law_chunks_make_up_the_list<T>(s: Seq<T>, n: nat)
    requires
        n > 0,
    ensures
        joined_parts(chunks(s, n)) == s,
        forall|i: int| 0 <= i < chunks(s, n).len() ==> 0 < (#[trigger] chunks(s, n)[i]).len() <= n,
        forall|i: int| 0 <= i < chunks(s, n).len() - 1 ==> (#[trigger] chunks(s, n)[i]).len() == n,
    decreases s.len(),
{
    if s.len() == 0 {
        assert(joined_parts(chunks(s, n)) =~= s);
    } else if s.len() <= n {
        let parts = chunks(s, n);
        assert(joined_parts(parts.drop_first()) =~= Seq::empty());
        assert(joined_parts(parts) =~= s);
    } else {
        let rest = chunks(s.skip(n as int), n);
        let parts = chunks(s, n);
        law_chunks_make_up_the_list(s.skip(n as int), n);
        assert(parts.drop_first() =~= rest);
        assert(joined_parts(parts) =~= s.take(n as int) + s.skip(n as int));
        assert forall|i: int| 0 <= i < parts.len() implies 0 < (#[trigger] parts[i]).len() <= n by {
            if i > 0 {
                assert(parts[i] == rest[i - 1]);
            }
        }
        assert forall|i: int| 0 <= i < parts.len() - 1 implies (#[trigger] parts[i]).len() == n by {
            if i > 0 {
                assert(parts[i] == rest[i - 1]);
            }
        }
    }
}

} // verus!
