//! Package coordinates as lockfiles pin them, and their order.
use vstd::prelude::*;
use vstd::string::StringExecFns;

use crate::text::{
    lemma_text_irreflexive, lemma_text_total, lemma_text_transitive, place_of_text, text_before, Place,
};

verus! {

/// A package registry.
#[derive(Debug, Clone, Copy, PartialEq, Eq, PartialOrd, Ord, Hash, Structural)]
pub enum Ecosystem {
    Npm,
    Pypi,
    Rubygems,
    Cargo,
    Maven,
    Nuget,
    Composer,
}

impl Ecosystem {
    /// The name of the ecosystem in the service's address and on the command line.
    pub open spec fn label(self) -> Seq<char> {
        match self {
            Ecosystem::Npm => "npm"@,
            Ecosystem::Pypi => "pypi"@,
            Ecosystem::Rubygems => "rubygems"@,
            Ecosystem::Cargo => "cargo"@,
            Ecosystem::Maven => "maven"@,
            Ecosystem::Nuget => "nuget"@,
            Ecosystem::Composer => "composer"@,
        }
    }

    /// The place of the ecosystem in the order in which the service asks about them.
    pub open spec fn rank(self) -> nat {
        match self {
            Ecosystem::Npm => 0,
            Ecosystem::Pypi => 1,
            Ecosystem::Rubygems => 2,
            Ecosystem::Cargo => 3,
            Ecosystem::Maven => 4,
            Ecosystem::Nuget => 5,
            Ecosystem::Composer => 6,
        }
    }

    /// What stands between name and version in a spec of this ecosystem.
    pub open spec fn separator(self) -> Seq<char> {
        match self {
            Ecosystem::Pypi => "=="@,
            _ => "@"@,
        }
    }

    /// The name of the ecosystem in the service's address and on the command line.
    pub fn as_str(self) -> (r: &'static str)
        ensures
            r@ == self.label(),
    {
        match self {
            Ecosystem::Npm => "npm",
            Ecosystem::Pypi => "pypi",
            Ecosystem::Rubygems => "rubygems",
            Ecosystem::Cargo => "cargo",
            Ecosystem::Maven => "maven",
            Ecosystem::Nuget => "nuget",
            Ecosystem::Composer => "composer",
        }
    }

    /// The place of the ecosystem in the order in which the service asks about them.
    pub fn position(self) -> (r: u8)
        ensures
            r == self.rank(),
    {
        match self {
            Ecosystem::Npm => 0,
            Ecosystem::Pypi => 1,
            Ecosystem::Rubygems => 2,
            Ecosystem::Cargo => 3,
            Ecosystem::Maven => 4,
            Ecosystem::Nuget => 5,
            Ecosystem::Composer => 6,
        }
    }
}

/// One pinned package, as a mathematical value.
pub struct Entry {
    pub ecosystem: Ecosystem,
    pub name: Seq<char>,
    pub version: Seq<char>,
}

impl Entry {
    /// The spec that the endpoint takes: `name==version` for PyPI, `name@version` elsewhere.
    pub open spec fn spec_text(self) -> Seq<char> {
        self.name + self.ecosystem.separator() + self.version
    }
}

/// One pinned package of a lockfile.
#[derive(Debug, PartialEq, Eq, PartialOrd, Ord)]
pub struct LockfileEntry {
    pub ecosystem: Ecosystem,
    pub name: String,
    pub version: String,
}

impl View for LockfileEntry {
    type V = Entry;

    open spec fn view(&self) -> Entry {
        Entry { ecosystem: self.ecosystem, name: self.name@, version: self.version@ }
    }
}

impl Clone for LockfileEntry {
    fn clone(&self) -> (r: Self)
        ensures
            r == *self,
    {
        LockfileEntry {
            ecosystem: self.ecosystem,
            name: self.name.clone(),
            version: self.version.clone(),
        }
    }
}

impl LockfileEntry {
    /// Wire format that the endpoint expects. PyPI uses `name==version`, every other
    /// ecosystem `name@version`; a Maven name is already `groupId:artifactId`.
    pub fn spec(&self) -> (r: String)
        ensures
            r@ == self@.spec_text(),
    {
        let mut r: String = self.name.clone();
        match self.ecosystem {
            Ecosystem::Pypi => r.append("=="),
            _ => r.append("@"),
        }
        r.append(self.version.as_str());
        r
    }
}

/// A spec is the name, then `==` for PyPI and `@` for every other ecosystem, then the version.
pub proof fn law_spec_joins_name_and_version(e: Entry)
    ensures
        e.ecosystem is Pypi ==> e.spec_text() == e.name + "=="@ + e.version,
        !(e.ecosystem is Pypi) ==> e.spec_text() == e.name + "@"@ + e.version,
{
}

/// The entries of a list, as mathematical values.
pub open spec fn entries(v: Seq<LockfileEntry>) -> Seq<Entry> {
    Seq::new(v.len(), |i: int| v[i]@)
}

// ---------------------------------------------------------------------------
// Order
// ---------------------------------------------------------------------------

/// `a` stands before `b`: by ecosystem, then by name, then by version.
pub open spec fn before(a: Entry, b: Entry) -> bool {
    ||| a.ecosystem.rank() < b.ecosystem.rank()
    ||| a.ecosystem == b.ecosystem && text_before(a.name, b.name)
    ||| a.ecosystem == b.ecosystem && a.name == b.name && text_before(a.version, b.version)
}

/// Each entry of `s` stands before every later one: sorted, and nothing occurs twice.
pub open spec fn strictly_sorted(s: Seq<Entry>) -> bool {
    forall|i: int, j: int| 0 <= i < j < s.len() ==> before(#[trigger] s[i], #[trigger] s[j])
}

/// Entries are ordered by ecosystem first, whatever their names; within one by name, whatever their
/// versions; and then by version. The ecosystems stand in the order in which they are asked about.
pub proof fn law_order_goes_by_ecosystem_name_and_version(a: Entry, b: Entry)
    ensures
        a.ecosystem.rank() < b.ecosystem.rank() ==> before(a, b) && !before(b, a),
        a.ecosystem == b.ecosystem && text_before(a.name, b.name) ==> before(a, b) && !before(b, a),
        a.ecosystem == b.ecosystem && a.name == b.name && text_before(a.version, b.version) ==> before(a, b)
            && !before(b, a),
{
    lemma_text_irreflexive(a.name);
    lemma_text_irreflexive(a.version);
    lemma_before_irreflexive(a);
    if before(a, b) && before(b, a) {
        lemma_before_transitive(a, b, a);
    }
}

/// No entry stands before itself.
pub proof fn lemma_before_irreflexive(a: Entry)
    ensures
        !before(a, a),
{
    lemma_text_irreflexive(a.name);
    lemma_text_irreflexive(a.version);
}

/// What stands before an entry stands before all that follow it.
pub proof fn lemma_before_transitive(a: Entry, b: Entry, c: Entry)
    requires
        before(a, b),
        before(b, c),
    ensures
        before(a, c),
{
    if text_before(a.name, b.name) && text_before(b.name, c.name) {
        lemma_text_transitive(a.name, b.name, c.name);
    }
    if text_before(a.version, b.version) && text_before(b.version, c.version) {
        lemma_text_transitive(a.version, b.version, c.version);
    }
}

/// The order of entries is total: of two entries either they are the same, or exactly one stands
/// before the other.
pub proof fn law_order_of_entries_is_total(a: Entry, b: Entry)
    ensures
        a == b || before(a, b) || before(b, a),
        !(a == b && before(a, b)),
        !(before(a, b) && before(b, a)),
{
    lemma_text_total(a.name, b.name);
    lemma_text_total(a.version, b.version);
    lemma_before_irreflexive(a);
    if before(a, b) && before(b, a) {
        lemma_before_transitive(a, b, a);
    }
}

/// A strictly sorted list is fixed by what it holds: two such lists with the same entries are
/// the same list.
pub proof fn law_sorted_list_is_fixed_by_its_entries(a: Seq<Entry>, b: Seq<Entry>)
    requires
        strictly_sorted(a),
        strictly_sorted(b),
        forall|e: Entry| a.contains(e) <==> b.contains(e),
    ensures
        a == b,
    decreases a.len(),
{
    if a.len() == 0 {
        if b.len() > 0 {
            assert(b.contains(b[0]));
        }
        assert(a =~= b);
    } else {
        assert(a.contains(a[0]));
        assert(b.contains(a[0]));
        let k = choose|k: int| 0 <= k < b.len() && b[k] == a[0];
        assert(b.contains(b[0]));
        assert(a.contains(b[0]));
        let m = choose|m: int| 0 <= m < a.len() && a[m] == b[0];
        if k > 0 && m > 0 {
            lemma_before_transitive(b[0], b[k], b[0]);
            lemma_before_irreflexive(b[0]);
        }
        assert(a[0] == b[0]);
        let x = a.drop_first();
        let y = b.drop_first();
        assert forall|e: Entry| x.contains(e) <==> y.contains(e) by {
            if x.contains(e) {
                let i = choose|i: int| 0 <= i < x.len() && x[i] == e;
                assert(a[i + 1] == e);
                assert(b.contains(e));
                let j = choose|j: int| 0 <= j < b.len() && b[j] == e;
                lemma_before_irreflexive(e);
                assert(j > 0);
                assert(y[j - 1] == e);
            }
            if y.contains(e) {
                let i = choose|i: int| 0 <= i < y.len() && y[i] == e;
                assert(b[i + 1] == e);
                assert(a.contains(e));
                let j = choose|j: int| 0 <= j < a.len() && a[j] == e;
                lemma_before_irreflexive(e);
                assert(j > 0);
                assert(x[j - 1] == e);
            }
        }
        law_sorted_list_is_fixed_by_its_entries(x, y);
        assert(a =~= seq![a[0]] + x);
        assert(b =~= seq![b[0]] + y);
    }
}

/// How the entry `a` stands to the entry `b`.
pub fn place_of(a: &LockfileEntry, b: &LockfileEntry) -> (r: Place)
    ensures
        match r {
            Place::Before => before(a@, b@),
            Place::Same => a@ == b@,
            Place::After => before(b@, a@),
        },
{
    let x: u8 = a.ecosystem.position();
    let y: u8 = b.ecosystem.position();
    if x < y {
        return Place::Before;
    }
    if y < x {
        return Place::After;
    }
    assert(a.ecosystem == b.ecosystem);
    match place_of_text(a.name.as_str(), b.name.as_str()) {
        Place::Before => Place::Before,
        Place::After => Place::After,
        Place::Same => place_of_text(a.version.as_str(), b.version.as_str()),
    }
}

/// Puts `e` into a strictly sorted list, unless it is there already.
pub fn insert_sorted(list: &mut Vec<LockfileEntry>, e: LockfileEntry)
    requires
        strictly_sorted(entries(old(list)@)),
    ensures
        strictly_sorted(entries(final(list)@)),
        forall|x: Entry|
            entries(final(list)@).contains(x) <==> entries(old(list)@).contains(x) || x == e@,
{
    let ghost s = entries(list@);
    let mut lo: usize = 0;
    let mut hi: usize = list.len();
    while lo < hi
        invariant
            s == entries(list@),
            *list == *old(list),
            strictly_sorted(s),
            lo <= hi <= list@.len(),
            forall|i: int| 0 <= i < lo ==> before(#[trigger] s[i], e@),
            forall|i: int| hi <= i < s.len() ==> before(e@, #[trigger] s[i]),
        decreases hi - lo,
    {
        let mid: usize = lo + (hi - lo) / 2;
        match place_of(&list[mid], &e) {
            Place::Same => {
                assert(s[mid as int] == e@);
                assert(s.contains(e@));
                return;
            },
            Place::Before => {
                assert forall|i: int| 0 <= i < mid + 1 implies before(#[trigger] s[i], e@) by {
                    if i < mid {
                        lemma_before_transitive(s[i], s[mid as int], e@);
                    }
                }
                lo = mid + 1;
            },
            Place::After => {
                assert forall|i: int| mid <= i < s.len() implies before(e@, #[trigger] s[i]) by {
                    if i > mid {
                        lemma_before_transitive(e@, s[mid as int], s[i]);
                    }
                }
                hi = mid;
            },
        }
    }
    list.insert(lo, e);
    let ghost t = entries(list@);
    assert(t =~= s.insert(lo as int, e@));
    assert forall|x: Entry| t.contains(x) <==> s.contains(x) || x == e@ by {
        if t.contains(x) {
            let i = choose|i: int| 0 <= i < t.len() && t[i] == x;
            if i < lo {
                assert(s[i] == x);
            } else if i > lo {
                assert(s[i - 1] == x);
            }
        }
        if s.contains(x) {
            let i = choose|i: int| 0 <= i < s.len() && s[i] == x;
            if i < lo {
                assert(t[i] == x);
            } else {
                assert(t[i + 1] == x);
            }
        }
        assert(t[lo as int] == e@);
    }
}

} // verus!
