//! The difference of a lockfile from what a baseline has of it, so that a run acts on what a
//! change introduces.
use vstd::prelude::*;
use vstd::string::StringExecFns;

use crate::entry::{
    entries, insert_sorted, lemma_before_irreflexive, lemma_before_transitive, place_of, strictly_sorted, Entry,
    LockfileEntry,
};
use crate::lists::{lemma_filter_contains, lemma_filter_ends, lemma_filter_next, lemma_filter_same};
use crate::lockfile::{canonical, on_registry, parse, readable, unicode_lower};
use crate::text::Place;

verus! {

/// The entries of `current` that are not in `baseline`, in their order. Entries are the same
/// where ecosystem, name and version are.
pub open spec fn added(current: Seq<Entry>, baseline: Seq<Entry>) -> Seq<Entry> {
    current.filter(|e: Entry| !baseline.contains(e))
}

/// What is gated is what was added or changed its version, and nothing else: an entry that the
/// baseline has is left out, one that it lacks is not, and one that was removed does not come back.
pub proof fn law_added_is_what_baseline_lacks(current: Seq<Entry>, baseline: Seq<Entry>, e: Entry)
    ensures
        added(current, baseline).contains(e) <==> current.contains(e) && !baseline.contains(e),
{
    lemma_filter_contains(current, |x: Entry| !baseline.contains(x), e);
}

/// Against an empty baseline everything is new.
pub proof fn law_empty_baseline_adds_all(current: Seq<Entry>)
    ensures
        added(current, Seq::empty()) == current,
{
    let none = Seq::<Entry>::empty();
    let keep = |e: Entry| !none.contains(e);
    assert forall|i: int| 0 <= i <= current.len() implies #[trigger] current.take(i).filter(keep)
        == current.take(i) by {
        lemma_kept_all(current, keep, i);
    }
    assert(current.take(current.len() as int) =~= current);
    assert(current.take(current.len() as int).filter(keep) == current);
}

/// A filter that keeps every item keeps the front of a list whole.
proof fn lemma_kept_all(s: Seq<Entry>, keep: spec_fn(Entry) -> bool, n: int)
    requires
        0 <= n <= s.len(),
        forall|i: int| 0 <= i < s.len() ==> keep(#[trigger] s[i]),
    ensures
        s.take(n).filter(keep) == s.take(n),
    decreases n,
{
    if n == 0 {
        lemma_filter_ends(s, keep);
        assert(s.take(0) =~= Seq::empty());
    } else {
        lemma_kept_all(s, keep, n - 1);
        lemma_filter_next(s, keep, n - 1);
        assert(s.take(n) =~= s.take(n - 1).push(s[n - 1]));
    }
}

/// A lockfile adds nothing to itself.
pub proof fn law_nothing_is_added_to_itself(current: Seq<Entry>)
    ensures
        added(current, current) == Seq::<Entry>::empty(),
{
    let out = added(current, current);
    if out.len() > 0 {
        assert(out.contains(out[0]));
        law_added_is_what_baseline_lacks(current, current, out[0]);
    }
    assert(out =~= Seq::empty());
}

/// The difference of a sorted list is sorted, and holds nothing twice.
pub proof fn law_difference_stays_sorted(current: Seq<Entry>, baseline: Seq<Entry>)
    requires
        strictly_sorted(current),
    ensures
        strictly_sorted(added(current, baseline)),
    decreases current.len(),
{
    reveal(Seq::filter);
    if current.len() > 0 {
        let front = current.drop_last();
        law_difference_stays_sorted(front, baseline);
        let kept = added(front, baseline);
        let out = added(current, baseline);
        assert forall|i: int, j: int| 0 <= i < j < out.len() implies crate::entry::before(
            #[trigger] out[i],
            #[trigger] out[j],
        ) by {
            if j == kept.len() {
                assert(kept.contains(kept[i]));
                law_added_is_what_baseline_lacks(front, baseline, kept[i]);
                let k = choose|k: int| 0 <= k < front.len() && front[k] == kept[i];
                assert(current[k] == out[i]);
            }
        }
    }
}

/// Whether a sorted list holds `e`.
fn holds(list: &Vec<LockfileEntry>, e: &LockfileEntry) -> (r: bool)
    requires
        strictly_sorted(entries(list@)),
    ensures
        r == entries(list@).contains(e@),
{
    let ghost s = entries(list@);
    let mut lo: usize = 0;
    let mut hi: usize = list.len();
    while lo < hi
        invariant
            s == entries(list@),
            strictly_sorted(s),
            lo <= hi <= list@.len(),
            forall|i: int| 0 <= i < lo ==> #[trigger] s[i] != e@,
            forall|i: int| hi <= i < s.len() ==> #[trigger] s[i] != e@,
        decreases hi - lo,
    {
        let mid: usize = lo + (hi - lo) / 2;
        proof {
            lemma_before_irreflexive(e@);
        }
        match place_of(&list[mid], e) {
            Place::Same => {
                assert(s[mid as int] == e@);
                return true;
            },
            Place::Before => {
                assert forall|i: int| 0 <= i < mid + 1 implies #[trigger] s[i] != e@ by {
                    if s[i] == e@ && i < mid {
                        lemma_before_transitive(s[i], s[mid as int], e@);
                    }
                }
                lo = mid + 1;
            },
            Place::After => {
                assert forall|i: int| mid <= i < s.len() implies #[trigger] s[i] != e@ by {
                    if s[i] == e@ && i > mid {
                        lemma_before_transitive(e@, s[mid as int], s[i]);
                    }
                }
                hi = mid;
            },
        }
    }
    false
}

/// The current entries that are not in the baseline, by ecosystem, name and version. Has what
/// was added and what changed its version; skips what is unchanged, and ignores what was removed.
/// Keeps the order.
pub fn new_entries(current: &[LockfileEntry], baseline: &[LockfileEntry]) -> (r: Vec<LockfileEntry>)
    ensures
        entries(r@) == added(entries(current@), entries(baseline@)),
{
    let ghost base = entries(baseline@);
    let ghost all = entries(current@);
    let ghost keep = |e: Entry| !base.contains(e);
    let mut known: Vec<LockfileEntry> = Vec::new();
    let mut i: usize = 0;
    assert(entries(known@) =~= Seq::empty());
    while i < baseline.len()
        invariant
            i <= baseline.len(),
            base == entries(baseline@),
            strictly_sorted(entries(known@)),
            forall|e: Entry| #[trigger]
                entries(known@).contains(e) <==> exists|k: int| 0 <= k < i && #[trigger] base[k] == e,
        decreases baseline.len() - i,
    {
        let ghost before = entries(known@);
        insert_sorted(&mut known, baseline[i].clone());
        assert forall|e: Entry| #[trigger]
            entries(known@).contains(e) <==> exists|k: int| 0 <= k < i + 1 && #[trigger] base[k] == e by {
            assert(entries(known@).contains(e) <==> before.contains(e) || e == base[i as int]);
        }
        i += 1;
    }
    let mut out: Vec<LockfileEntry> = Vec::new();
    let mut j: usize = 0;
    proof {
        lemma_filter_ends(all, keep);
        assert(entries(out@) =~= Seq::empty());
        assert forall|e: Entry| #[trigger] entries(known@).contains(e) <==> base.contains(e) by {
            if base.contains(e) {
                let k = choose|k: int| 0 <= k < base.len() && base[k] == e;
                assert(base[k] == e);
            }
        }
    }
    while j < current.len()
        invariant
            j <= current.len(),
            all == entries(current@),
            keep == (|e: Entry| !base.contains(e)),
            strictly_sorted(entries(known@)),
            forall|e: Entry| #[trigger] entries(known@).contains(e) <==> base.contains(e),
            entries(out@) == all.take(j as int).filter(keep),
        decreases current.len() - j,
    {
        proof {
            lemma_filter_next(all, keep, j as int);
        }
        assert(all[j as int] == current@[j as int]@);
        if !holds(&known, &current[j]) {
            let ghost before = entries(out@);
            out.push(current[j].clone());
            assert(entries(out@) =~= before.push(all[j as int]));
        }
        j += 1;
    }
    out
}

// ---------------------------------------------------------------------------
// What a baseline has of a lockfile
// ---------------------------------------------------------------------------

/// What is known of a lockfile at the baseline.
#[derive(Debug)]
pub enum Baseline {
    /// No baseline was asked for.
    Unasked,
    /// The baseline cannot be resolved.
    Unresolved,
    /// The lockfile is not there at the baseline.
    Absent,
    /// The content of the lockfile at the baseline.
    Content(String),
}

/// The entries to gate of a lockfile whose (lower-cased) name is `name`: those that the baseline
/// lacks, or all of them where there is no baseline to compare with.
pub open spec fn to_gate(name: Seq<char>, current: Seq<Entry>, baseline: Baseline) -> Seq<Entry> {
    match baseline {
        Baseline::Content(content) => match readable(name, content@) {
            Some(all) => added(current, all.filter(|e: Entry| on_registry(e))),
            None => current,
        },
        _ => current,
    }
}

/// The baseline was asked for and cannot be used.
pub open spec fn baseline_failed(name: Seq<char>, baseline: Baseline) -> bool {
    match baseline {
        Baseline::Unresolved => true,
        Baseline::Content(content) => readable(name, content@) is None,
        _ => false,
    }
}

/// A baseline that fails is never less safe than none: the whole lockfile is gated.
pub proof fn law_failed_baseline_gates_all(name: Seq<char>, current: Seq<Entry>, baseline: Baseline)
    requires
        baseline_failed(name, baseline),
    ensures
        to_gate(name, current, baseline) == current,
{
}

/// Where the baseline's lockfile can be read, an entry is gated if and only if the lockfile has it
/// and the baseline does not pin the same version from the registry: a package that is new, a
/// version that is new of a package that the baseline has, and one that the baseline took from
/// elsewhere are all gated, and nothing else is.
pub proof fn law_gated_is_what_the_baseline_does_not_pin(
    name: Seq<char>,
    current: Seq<Entry>,
    content: String,
    e: Entry,
)
    requires
        readable(name, content@) is Some,
    ensures
        to_gate(name, current, Baseline::Content(content)).contains(e) <==> current.contains(e) && !(readable(
            name,
            content@,
        )->Some_0.contains(e) && on_registry(e)),
        !baseline_failed(name, Baseline::Content(content)),
{
    let all = readable(name, content@)->Some_0;
    let kept = all.filter(|x: Entry| on_registry(x));
    law_added_is_what_baseline_lacks(current, kept, e);
    lemma_filter_contains(all, |x: Entry| on_registry(x), e);
}

/// A version of a package that the baseline pins only in other versions is gated.
pub proof fn law_version_bump_is_gated(name: Seq<char>, current: Seq<Entry>, content: String, e: Entry)
    requires
        readable(name, content@) is Some,
        current.contains(e),
        forall|x: Entry| #[trigger]
            readable(name, content@)->Some_0.contains(x) && x.ecosystem == e.ecosystem && x.name == e.name ==> x.version
                != e.version,
    ensures
        to_gate(name, current, Baseline::Content(content)).contains(e),
{
    law_gated_is_what_the_baseline_does_not_pin(name, current, content, e);
}

/// Every entry is judged by itself: what is gated of two lists one after the other is what is
/// gated of the first and then what is gated of the second.
pub proof fn law_gating_goes_entry_by_entry(name: Seq<char>, a: Seq<Entry>, b: Seq<Entry>, baseline: Baseline)
    ensures
        to_gate(name, a + b, baseline) == to_gate(name, a, baseline) + to_gate(name, b, baseline),
        forall|e: Entry|
            #![trigger to_gate(name, seq![e], baseline)]
            to_gate(name, seq![e], baseline).len() <= 1,
{
    reveal(Seq::filter);
    match baseline {
        Baseline::Content(content) => {
            if readable(name, content@) is Some {
                let kept = readable(name, content@)->Some_0.filter(|x: Entry| on_registry(x));
                Seq::filter_distributes_over_add(a, b, |x: Entry| !kept.contains(x));
                assert forall|e: Entry|
                    #![trigger to_gate(name, seq![e], baseline)]
                    to_gate(name, seq![e], baseline).len() <= 1 by {
                    seq![e].lemma_filter_len(|x: Entry| !kept.contains(x));
                }
            }
        },
        _ => {},
    }
}

/// A baseline that was not asked for, that cannot be resolved, that lacks the file or whose file
/// cannot be read leaves every entry to gate; of these the second and the last call for a warning.
pub proof fn law_without_a_readable_baseline_all_is_gated(name: Seq<char>, current: Seq<Entry>, content: String)
    ensures
        to_gate(name, current, Baseline::Unasked) == current && !baseline_failed(name, Baseline::Unasked),
        to_gate(name, current, Baseline::Absent) == current && !baseline_failed(name, Baseline::Absent),
        to_gate(name, current, Baseline::Unresolved) == current && baseline_failed(name, Baseline::Unresolved),
        readable(name, content@) is None ==> to_gate(name, current, Baseline::Content(content)) == current
            && baseline_failed(name, Baseline::Content(content)),
{
}

/// The entries of a lockfile to gate, and whether the baseline was asked for and could not be
/// used, which calls for a warning.
pub fn entries_to_gate(file_name: &str, current: Vec<LockfileEntry>, baseline: Baseline) -> (r: (
    Vec<LockfileEntry>,
    bool,
))
    ensures
        entries(r.0@) == to_gate(unicode_lower(file_name@), entries(current@), baseline),
        r.1 == baseline_failed(unicode_lower(file_name@), baseline),
{
    match &baseline {
        Baseline::Unasked => (current, false),
        Baseline::Unresolved => (current, true),
        Baseline::Absent => (current, false),
        Baseline::Content(content) => match parse(file_name, content.as_str()) {
            Ok(known) => {
                let ghost all = readable(unicode_lower(file_name@), content@)->Some_0;
                proof {
                    let base = entries(known@);
                    let kept = all.filter(|e: Entry| on_registry(e));
                    let p = |e: Entry| !base.contains(e);
                    let q = |e: Entry| !kept.contains(e);
                    assert(canonical(all, base));
                    assert forall|e: Entry| #[trigger] p(e) == q(e) by {
                        lemma_filter_contains(all, |x: Entry| on_registry(x), e);
                        assert(base.contains(e) <==> all.contains(e) && on_registry(e));
                    }
                    lemma_filter_same(entries(current@), p, q);
                }
                (new_entries(current.as_slice(), known.as_slice()), false)
            },
            Err(_) => (current, true),
        },
    }
}

/// The warning about a baseline that could not be used.
pub open spec fn warning_text(path: Seq<char>, git_ref: Seq<char>) -> Seq<char> {
    "pkgradar: warning — can't resolve "@ + path + " at baseline "@ + git_ref
        + "; gating the full lockfile instead."@
}

/// The warning names the lockfile and the baseline.
pub proof fn law_warning_names_lockfile_and_baseline(path: Seq<char>, git_ref: Seq<char>)
    ensures
        warning_text(path, git_ref) == "pkgradar: warning — can't resolve "@ + (path + " at baseline "@ + git_ref)
            + "; gating the full lockfile instead."@,
{
    assert("pkgradar: warning — can't resolve "@ + path + " at baseline "@ + git_ref
        =~= "pkgradar: warning — can't resolve "@ + (path + " at baseline "@ + git_ref));
}

/// The warning about a baseline that could not be used.
pub fn baseline_warning(path: &str, git_ref: &str) -> (r: String)
    ensures
        r@ == warning_text(path@, git_ref@),
{
    let mut r: String = "pkgradar: warning — can't resolve ".to_owned();
    r.append(path);
    r.append(" at baseline ");
    r.append(git_ref);
    r.append("; gating the full lockfile instead.");
    r
}

} // verus!
