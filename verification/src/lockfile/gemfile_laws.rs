//! What a `Gemfile.lock` lists: section by section, line by line.
use vstd::prelude::*;

use crate::entry::{Ecosystem, Entry};
use crate::lockfile::each;
use crate::lockfile::gemfile::{gem, gem_state, gemfile_entries, in_brackets, indent, is_plain_version, GemState};
use crate::text::{lines, trim, trim_start, utf8_len};
use crate::text_laws::{
    all_space, is_bare, lacks, law_trim_gives_back_bare_text, lemma_first_char, lemma_trim_start_pads,
};

verus! {

/// A line that is indented, and so belongs to the section above it.
pub open spec fn is_indented(line: Seq<char>) -> bool {
    line.len() > 0 && line[0] == ' '
}

/// The gem in a line, as a rule.
pub open spec fn gem_rule() -> spec_fn(Seq<char>) -> Option<Entry> {
    |line: Seq<char>| gem(line)
}

/// The lines that follow do not change what the first lines say.
proof fn lemma_state_of_front(a: Seq<Seq<char>>, b: Seq<Seq<char>>, n: nat)
    requires
        n <= a.len(),
    ensures
        gem_state(a + b, n) == gem_state(a, n),
    decreases n,
{
    if n > 0 {
        lemma_state_of_front(a, b, (n - 1) as nat);
        assert((a + b)[n - 1] == a[n - 1]);
    }
}

/// From a line that opens a section on, the lines are read as if they stood alone.
proof fn lemma_state_of_back(a: Seq<Seq<char>>, b: Seq<Seq<char>>, k: nat)
    requires
        1 <= k <= b.len(),
        !is_indented(b[0]),
    ensures
        gem_state(a + b, a.len() + k).in_gem == gem_state(b, k).in_gem,
        gem_state(a + b, a.len() + k).in_specs == gem_state(b, k).in_specs,
        gem_state(a + b, a.len() + k).done == gem_state(a, a.len()).done + gem_state(b, k).done,
    decreases k,
{
    assert((a + b)[a.len() + k - 1] == b[k - 1]);
    if k == 1 {
        lemma_state_of_front(a, b, a.len());
        assert(gem_state(b, 0) == GemState { in_gem: false, in_specs: false, done: Seq::empty() });
        assert(gem_state(a + b, a.len() + 1).done =~= gem_state(a, a.len()).done + gem_state(b, 1).done);
    } else {
        lemma_state_of_back(a, b, (k - 1) as nat);
        assert(gem_state(a + b, a.len() + k).done =~= gem_state(a, a.len()).done + gem_state(b, k).done);
    }
}

/// A line that is not indented is where a file can be cut: what is listed is what the lines before
/// it list, and then what the lines from it on list.
pub proof fn law_sections_are_read_one_by_one(content: Seq<char>, front: Seq<char>, back: Seq<char>)
    requires
        lines(content) == lines(front) + lines(back),
        lines(back).len() > 0,
        !is_indented(lines(back)[0]),
    ensures
        gemfile_entries(content) == gemfile_entries(front) + gemfile_entries(back),
{
    lemma_state_of_back(lines(front), lines(back), lines(back).len());
}

/// Below `specs:` every line is read for itself.
proof fn lemma_specs(a: Seq<Seq<char>>, n: Seq<Seq<char>>, k: nat)
    requires
        k <= n.len(),
        gem_state(a, a.len()).in_gem && gem_state(a, a.len()).in_specs,
        forall|i: int| 0 <= i < n.len() ==> is_indented(#[trigger] n[i]),
    ensures
        gem_state(a + n, a.len() + k).in_gem && gem_state(a + n, a.len() + k).in_specs,
        gem_state(a + n, a.len() + k).done == gem_state(a, a.len()).done + each(n.take(k as int), gem_rule()),
    decreases k,
{
    if k == 0 {
        lemma_state_of_front(a, n, a.len());
        assert(each(n.take(0), gem_rule()) =~= Seq::<Entry>::empty());
        assert(gem_state(a, a.len()).done + each(n.take(0), gem_rule()) =~= gem_state(a, a.len()).done);
    } else {
        lemma_specs(a, n, (k - 1) as nat);
        let line = n[k - 1];
        assert((a + n)[a.len() + k - 1] == line);
        assert(n.take(k as int).drop_last() =~= n.take(k - 1));
        assert(n.take(k as int).last() == line);
        if trim_start(line) == "specs:"@ {
            reveal_strlit("specs:");
            crate::text::lemma_find_char("specs:"@, ' ');
            assert(gem(line) is None);
        }
        assert(gem_state(a + n, a.len() + k).done =~= gem_state(a, a.len()).done + each(
            n.take(k as int),
            gem_rule(),
        ));
    }
}

/// Indented lines that do not open the list of gems change nothing before it.
proof fn lemma_before_specs(a: Seq<Seq<char>>, m: Seq<Seq<char>>, k: nat)
    requires
        k <= m.len(),
        !gem_state(a, a.len()).in_specs,
        forall|i: int| 0 <= i < m.len() ==> is_indented(#[trigger] m[i]),
        gem_state(a, a.len()).in_gem ==> forall|i: int| 0 <= i < m.len() ==> trim_start(#[trigger] m[i]) != "specs:"@,
    ensures
        gem_state(a + m, a.len() + k) == gem_state(a, a.len()),
    decreases k,
{
    if k == 0 {
        lemma_state_of_front(a, m, a.len());
    } else {
        lemma_before_specs(a, m, (k - 1) as nat);
        assert((a + m)[a.len() + k - 1] == m[k - 1]);
    }
}

/// The section `GEM` lists the gem in each line below `specs:`, in their order, whatever lines
/// stand between the two and whatever other lines stand below.
pub proof fn law_gem_section_lists_its_specs(
    content: Seq<char>,
    header: Seq<char>,
    m: Seq<Seq<char>>,
    specs: Seq<char>,
    n: Seq<Seq<char>>,
)
    requires
        lines(content) == seq![header] + m + seq![specs] + n,
        !is_indented(header) && trim(header) == "GEM"@,
        is_indented(specs) && trim_start(specs) == "specs:"@,
        forall|i: int| 0 <= i < m.len() ==> is_indented(#[trigger] m[i]) && trim_start(m[i]) != "specs:"@,
        forall|i: int| 0 <= i < n.len() ==> is_indented(#[trigger] n[i]),
    ensures
        gemfile_entries(content) == each(n, gem_rule()),
{
    let one = seq![header];
    let two = one + m;
    let three = two + seq![specs];
    let whole = three + n;
    assert(whole =~= lines(content));
    assert(gem_state(one, 0) == GemState { in_gem: false, in_specs: false, done: Seq::empty() });
    assert(one[0] == header);
    assert(gem_state(one, 1) == GemState { in_gem: true, in_specs: false, done: Seq::empty() });
    lemma_before_specs(one, m, m.len());
    lemma_state_of_front(two, seq![specs], two.len());
    assert(three[two.len() as int] == specs);
    lemma_specs(three, n, n.len());
    assert(n.take(n.len() as int) =~= n);
    assert(gemfile_entries(content) =~= each(n, gem_rule()));
}

/// Every other section lists nothing: one with another name, lines before any section, and a
/// section `GEM` without `specs:`.
pub proof fn law_other_sections_list_nothing(content: Seq<char>, header: Seq<Seq<char>>, m: Seq<Seq<char>>)
    requires
        lines(content) == header + m,
        header.len() == 0 || header.len() == 1 && !is_indented(header[0]),
        forall|i: int| 0 <= i < m.len() ==> is_indented(#[trigger] m[i]),
        header.len() == 1 && trim(header[0]) == "GEM"@ ==> forall|i: int|
            0 <= i < m.len() ==> trim_start(#[trigger] m[i]) != "specs:"@,
    ensures
        gemfile_entries(content) == Seq::<Entry>::empty(),
{
    assert(gem_state(header, 0) == GemState { in_gem: false, in_specs: false, done: Seq::empty() });
    assert(gem_state(header, header.len()).done =~= Seq::<Entry>::empty());
    lemma_before_specs(header, m, m.len());
}

/// White space of `k` spaces.
pub open spec fn spaces(k: nat) -> Seq<char> {
    Seq::new(k, |i: int| ' ')
}

proof fn lemma_spaces(k: nat)
    ensures
        utf8_len(spaces(k)) == k,
        all_space(spaces(k)),
    decreases k,
{
    if k > 0 {
        lemma_spaces((k - 1) as nat);
        assert(spaces(k).drop_last() =~= spaces((k - 1) as nat));
    }
}

/// The version is a release: no constraint, and no build for a platform.
pub open spec fn is_release(v: Seq<char>) -> bool {
    v.len() > 0 && lacks(v, ' ') && lacks(v, '-') && v[0] != '~' && v[0] != '>'
}

/// A line gives its gem, `name (version)`, if and only if it is indented by four spaces and the
/// version is a release; the indented dependencies of a gem and its builds for a platform give
/// none.
pub proof fn law_gem_line_gives_its_gem(
    k: nat,
    name: Seq<char>,
    gap: Seq<char>,
    version: Seq<char>,
    b: Seq<char>,
)
    requires
        is_bare(name) && lacks(name, ' '),
        all_space(gap) && all_space(b),
        is_bare(version),
    ensures
        gem(spaces(k) + (name + seq![' '] + (gap + (seq!['('] + version + seq![')']) + b))) == if k == 4 && is_release(
            version,
        ) {
            Some(Entry { ecosystem: Ecosystem::Rubygems, name, version })
        } else {
            None
        },
{
    let wrapped = seq!['('] + version + seq![')'];
    let tail = gap + wrapped + b;
    let bare = name + seq![' '] + tail;
    let line = spaces(k) + bare;
    lemma_spaces(k);
    lemma_trim_start_pads(spaces(k), bare);
    assert(bare[0] == name[0]);
    assert(trim_start(bare) == bare);
    assert(line.take(line.len() - bare.len()) =~= spaces(k));
    assert(indent(line) == k);
    lemma_first_char(name, ' ', tail);
    assert(is_bare(wrapped)) by {
        assert(wrapped[0] == '(');
        assert(wrapped.last() == ')');
    }
    law_trim_gives_back_bare_text(gap, wrapped, b);
    assert(wrapped.subrange(1, wrapped.len() - 1) =~= version);
    assert(in_brackets(wrapped) == Some(version));
    law_trim_gives_back_bare_text(Seq::empty(), name, Seq::empty());
    law_trim_gives_back_bare_text(Seq::empty(), version, Seq::empty());
    lemma_plain(version);
}

proof fn lemma_plain(v: Seq<char>)
    requires
        v.len() > 0,
    ensures
        is_plain_version(v) <==> is_release(v),
{
    if v.contains(' ') {
        let i = choose|i: int| 0 <= i < v.len() && v[i] == ' ';
        assert(v[i] == ' ');
    }
    if v.contains('-') {
        let i = choose|i: int| 0 <= i < v.len() && v[i] == '-';
        assert(v[i] == '-');
    }
    if !lacks(v, ' ') {
        let i = choose|i: int| 0 <= i < v.len() && #[trigger] v[i] == ' ';
        assert(v.contains(v[i]));
    }
    if !lacks(v, '-') {
        let i = choose|i: int| 0 <= i < v.len() && #[trigger] v[i] == '-';
        assert(v.contains(v[i]));
    }
}

} // verus!
