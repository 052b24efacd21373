//! RubyGems: `Gemfile.lock` and `gems.locked`.
use vstd::prelude::*;
use vstd::slice::slice_subrange;

use crate::entry::{entries, Ecosystem, Entry, LockfileEntry};
use crate::lockfile::{push_some, LockfileError};
use crate::text::{
    chars_of, contains_char, equals, find_char, lines, lines_of, position_of, string_of, trim, trim_start, trim_text,
    trim_text_start, utf8_len, utf8_len_up_to, views,
};

verus! {

/// The width of the white space in front of a line, in bytes.
pub open spec fn indent(line: Seq<char>) -> nat {
    utf8_len(line.take(line.len() - trim_start(line).len()))
}

/// What stands between the round brackets that `s` begins and ends with.
pub open spec fn in_brackets(s: Seq<char>) -> Option<Seq<char>> {
    if s.len() >= 2 && s[0] == '(' && s.last() == ')' {
        Some(s.subrange(1, s.len() - 1))
    } else {
        None
    }
}

/// A version that is pinned: not a constraint, and without a platform.
pub open spec fn is_plain_version(version: Seq<char>) -> bool {
    &&& !version.contains(' ')
    &&& !(version.len() > 0 && (version[0] == '~' || version[0] == '>'))
    &&& !version.contains('-')
}

/// The gem that a line below `specs:` resolves: `name (version)` at an indent of four.
pub open spec fn gem(line: Seq<char>) -> Option<Entry> {
    let bare = trim_start(line);
    match find_char(bare, ' ') {
        Some(i) => match in_brackets(trim(bare.skip(i + 1))) {
            Some(inner) => if indent(line) == 4 && trim(bare.take(i)).len() > 0 && is_plain_version(trim(inner)) {
                Some(
                    Entry { ecosystem: Ecosystem::Rubygems, name: trim(bare.take(i)), version: trim(inner) },
                )
            } else {
                None
            },
            None => None,
        },
        None => None,
    }
}

/// A line that opens a section: it is not indented.
pub open spec fn is_section(line: Seq<char>) -> bool {
    line.len() == 0 || line[0] != ' '
}

/// Where in the file a line stands, and the gems before it.
pub struct GemState {
    pub in_gem: bool,
    pub in_specs: bool,
    pub done: Seq<Entry>,
}

/// What the first `n` lines say: a line that is not indented opens a section, `specs:` in the
/// section `GEM` begins the resolved gems, and each line after it may give one.
pub open spec fn gem_state(all: Seq<Seq<char>>, n: nat) -> GemState
    decreases n,
{
    if n == 0 || n > all.len() {
        GemState { in_gem: false, in_specs: false, done: Seq::empty() }
    } else {
        let st = gem_state(all, (n - 1) as nat);
        let line = all[n - 1];
        if is_section(line) {
            GemState { in_gem: trim(line) == "GEM"@, in_specs: false, done: st.done }
        } else if !st.in_gem {
            st
        } else if trim_start(line) == "specs:"@ {
            GemState { in_specs: true, ..st }
        } else if !st.in_specs {
            st
        } else {
            match gem(line) {
                Some(e) => GemState { done: st.done.push(e), ..st },
                None => st,
            }
        }
    }
}

/// The gems of a `Gemfile.lock`.
pub open spec fn gemfile_entries(content: Seq<char>) -> Seq<Entry> {
    let all = lines(content);
    gem_state(all, all.len()).done
}

/// What `trim_start` leaves is not longer than the line.
proof fn lemma_trim_start_len(s: Seq<char>)
    ensures
        trim_start(s).len() <= s.len(),
    decreases s.len(),
{
    if s.len() > 0 && crate::text::is_space(s[0]) {
        lemma_trim_start_len(s.drop_first());
    }
}

/// Reads one line below `specs:`.
fn read_gem(line: &[char]) -> (r: Option<LockfileEntry>)
    ensures
        match r {
            Some(e) => gem(line@) == Some(e@),
            None => gem(line@) is None,
        },
{
    proof {
        lemma_trim_start_len(line@);
    }
    let bare: &[char] = trim_text_start(line);
    let margin: &[char] = slice_subrange(line, 0, line.len() - bare.len());
    assert(margin@ =~= line@.take(line@.len() - trim_start(line@).len()));
    if utf8_len_up_to(margin, 4) != 4 {
        return None;
    }
    match position_of(bare, ' ') {
        Some(i) => {
            assert(i < bare.len());
            assert(bare@.take(i as int) =~= bare@.subrange(0, i as int));
            assert(bare@.skip(i + 1) =~= bare@.subrange(i + 1, bare@.len() as int));
            let name: &[char] = trim_text(slice_subrange(bare, 0, i));
            let rest: &[char] = trim_text(slice_subrange(bare, i + 1, bare.len()));
            if name.len() == 0 || rest.len() < 2 || rest[0] != '(' || rest[rest.len() - 1] != ')' {
                return None;
            }
            let version: &[char] = trim_text(slice_subrange(rest, 1, rest.len() - 1));
            if contains_char(version, ' ') || contains_char(version, '-') {
                return None;
            }
            if version.len() > 0 && (version[0] == '~' || version[0] == '>') {
                return None;
            }
            Some(
                LockfileEntry {
                    ecosystem: Ecosystem::Rubygems,
                    name: string_of(name),
                    version: string_of(version),
                },
            )
        },
        None => None,
    }
}

/// Parse Bundler's `Gemfile.lock`. The interesting section is `GEM`, which holds the
/// registry-resolved tree: each gem appears as `    name (1.2.3)` under `  specs:`. Transitive
/// dependencies are indented one level deeper and carry constraints, not pins; they are skipped,
/// and so are the sections GIT, PATH and PLUGIN.
pub fn parse_gemfile_lock(content: &str) -> (r: Result<Vec<LockfileEntry>, LockfileError>)
    ensures
        r matches Ok(v) && entries(v@) == gemfile_entries(content@),
{
    let content: Vec<char> = chars_of(content);
    let rows: Vec<&[char]> = lines_of(content.as_slice());
    let ghost all = lines(content@);
    let mut out: Vec<LockfileEntry> = Vec::new();
    let mut in_gem: bool = false;
    let mut in_specs: bool = false;
    let mut i: usize = 0;
    assert(entries(out@) =~= Seq::empty());
    while i < rows.len()
        invariant
            i <= rows.len(),
            views(rows@) == all,
            (GemState { in_gem, in_specs, done: entries(out@) }) == gem_state(all, i as nat),
        decreases rows.len() - i,
    {
        assert(rows@[i as int]@ == all[i as int]);
        let line: &[char] = rows[i];
        if line.len() == 0 || line[0] != ' ' {
            in_gem = equals(trim_text(line), "GEM");
            in_specs = false;
        } else if in_gem {
            if equals(trim_text_start(line), "specs:") {
                in_specs = true;
            } else if in_specs {
                let e: Option<LockfileEntry> = read_gem(line);
                push_some(&mut out, e);
            }
        }
        i += 1;
    }
    Ok(out)
}

} // verus!
