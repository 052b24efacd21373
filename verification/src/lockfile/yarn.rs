//! yarn classic: `yarn.lock` v1.
use vstd::prelude::*;
use vstd::slice::slice_subrange;

use crate::entry::{entries, Ecosystem, Entry, LockfileEntry};
use crate::lockfile::LockfileError;
use crate::text::{
    chars_of, find_char_at, find_char_from, lines, lines_of, split_at_char, split_char, string_of, strip_prefix, trim,
    trim_char, trim_end_char, trim_end_of, trim_of, trim_text, views,
};

verus! {

/// The package name in a descriptor `name@range` or `@scope/name@range`.
pub open spec fn yarn_name(token: Seq<char>) -> Option<Seq<char>> {
    let start: int = if token.len() > 0 && token[0] == '@' {
        1
    } else {
        0
    };
    match find_char_from(token, '@', start) {
        Some(i) => Some(token.take(i)),
        None => None,
    }
}

/// The names in the first `n` descriptors of a header.
pub open spec fn token_names(tokens: Seq<Seq<char>>, n: nat) -> Seq<Seq<char>>
    decreases n,
{
    if n == 0 || n > tokens.len() {
        Seq::empty()
    } else {
        let front = token_names(tokens, (n - 1) as nat);
        match yarn_name(trim_char(trim(tokens[n - 1]), '"')) {
            Some(name) => front.push(name),
            None => front,
        }
    }
}

/// The names in a header line: descriptors between commas, quoted or not, and a colon at the end.
pub open spec fn header_names(line: Seq<char>) -> Seq<Seq<char>> {
    let tokens = split_char(trim(trim_end_char(line, ':')), ',');
    token_names(tokens, tokens.len())
}

/// The version that a line in a block gives, if it gives one.
pub open spec fn version_line(line: Seq<char>) -> Option<Seq<char>> {
    let bare = trim(line);
    if "version "@.is_prefix_of(bare) {
        Some(trim_char(trim(bare.skip("version "@.len() as int)), '"'))
    } else if "version: "@.is_prefix_of(bare) {
        Some(trim_char(trim(bare.skip("version: "@.len() as int)), '"'))
    } else {
        None
    }
}

/// A line that says nothing: empty, or a comment.
pub open spec fn is_blank(line: Seq<char>) -> bool {
    line.len() == 0 || line[0] == '#'
}

/// A line that opens a block: it is not indented.
pub open spec fn is_header(line: Seq<char>) -> bool {
    line[0] != ' ' && line[0] != '\t'
}

/// The entries of a block with the given names and version.
pub open spec fn block_entries(names: Seq<Seq<char>>, version: Option<Seq<char>>) -> Seq<Entry> {
    match version {
        Some(v) => Seq::new(
            names.len(),
            |i: int| Entry { ecosystem: Ecosystem::Npm, name: names[i], version: v },
        ),
        None => Seq::empty(),
    }
}

/// What the first `n` lines say: the names of the block that they are in, the last version that
/// it gave, and the entries of the blocks before it.
pub struct YarnState {
    pub names: Seq<Seq<char>>,
    pub version: Option<Seq<char>>,
    pub done: Seq<Entry>,
}

/// What the first `n` lines say.
pub open spec fn yarn_state(all: Seq<Seq<char>>, n: nat) -> YarnState
    decreases n,
{
    if n == 0 || n > all.len() {
        YarnState { names: Seq::empty(), version: None, done: Seq::empty() }
    } else {
        let st = yarn_state(all, (n - 1) as nat);
        let line = all[n - 1];
        if is_blank(line) {
            st
        } else if is_header(line) {
            YarnState {
                names: header_names(line),
                version: None,
                done: st.done + block_entries(st.names, st.version),
            }
        } else {
            match version_line(line) {
                Some(v) => YarnState { version: Some(v), ..st },
                None => st,
            }
        }
    }
}

/// The packages of a `yarn.lock`: for each block one entry per descriptor in its header, with
/// the version of the block; blocks without a version give none.
pub open spec fn yarn_entries(content: Seq<char>) -> Seq<Entry> {
    let all = lines(content);
    let st = yarn_state(all, all.len());
    st.done + block_entries(st.names, st.version)
}

/// The package name in a descriptor.
fn read_name(token: &[char]) -> (r: Option<&[char]>)
    ensures
        match r {
            Some(n) => yarn_name(token@) == Some(n@),
            None => yarn_name(token@) is None,
        },
{
    let start: usize = if token.len() > 0 && token[0] == '@' {
        1
    } else {
        0
    };
    match find_char_at(token, '@', start) {
        Some(i) => {
            assert(token@.take(i as int) =~= token@.subrange(0, i as int));
            Some(slice_subrange(token, 0, i))
        },
        None => None,
    }
}

/// The package name in a descriptor `name@range` or `@scope/name@range`.
pub fn parse_yarn_name(token: &str) -> (r: Option<String>)
    ensures
        match r {
            Some(n) => yarn_name(token@) == Some(n@),
            None => yarn_name(token@) is None,
        },
{
    let chars: Vec<char> = chars_of(token);
    match read_name(chars.as_slice()) {
        Some(n) => Some(string_of(n)),
        None => None,
    }
}

/// The names in a header line.
fn read_header<'a>(line: &'a [char]) -> (r: Vec<&'a [char]>)
    ensures
        views(r@) == header_names(line@),
{
    let tokens: Vec<&'a [char]> = split_at_char(trim_text(trim_end_of(line, ':')), ',');
    let ghost all = split_char(trim(trim_end_char(line@, ':')), ',');
    let mut names: Vec<&'a [char]> = Vec::new();
    let mut i: usize = 0;
    assert(views(names@) =~= Seq::empty());
    while i < tokens.len()
        invariant
            i <= tokens.len(),
            views(tokens@) == all,
            views(names@) == token_names(all, i as nat),
        decreases tokens.len() - i,
    {
        assert(tokens@[i as int]@ == all[i as int]);
        let ghost before = views(names@);
        let token: &'a [char] = trim_of(trim_text(tokens[i]), '"');
        match read_name(token) {
            Some(name) => {
                names.push(name);
                assert(views(names@) =~= before.push(name@));
            },
            None => {},
        }
        i += 1;
    }
    names
}

/// The version that a line in a block gives.
fn read_version_line<'a>(line: &'a [char]) -> (r: Option<&'a [char]>)
    ensures
        match r {
            Some(v) => version_line(line@) == Some(v@),
            None => version_line(line@) is None,
        },
{
    let bare: &'a [char] = trim_text(line);
    match strip_prefix(bare, "version ") {
        Some(rest) => Some(trim_of(trim_text(rest), '"')),
        None => match strip_prefix(bare, "version: ") {
            Some(rest) => Some(trim_of(trim_text(rest), '"')),
            None => None,
        },
    }
}

/// The version as a value.
pub open spec fn version_view(v: Option<&[char]>) -> Option<Seq<char>> {
    match v {
        Some(s) => Some(s@),
        None => None,
    }
}

/// Closes a block: appends its entries.
fn flush(names: &Vec<&[char]>, version: Option<&[char]>, out: &mut Vec<LockfileEntry>)
    ensures
        entries(final(out)@) == entries(old(out)@) + block_entries(views(names@), version_view(version)),
{
    let ghost start = entries(out@);
    match version {
        Some(v) => {
            let ghost block = block_entries(views(names@), version_view(version));
            let mut i: usize = 0;
            assert(start + block.take(0) =~= start);
            while i < names.len()
                invariant
                    i <= names.len(),
                    block == block_entries(views(names@), Some(v@)),
                    entries(out@) == start + block.take(i as int),
                decreases names.len() - i,
            {
                let e: LockfileEntry = LockfileEntry {
                    ecosystem: Ecosystem::Npm,
                    name: string_of(names[i]),
                    version: string_of(v),
                };
                let ghost before = entries(out@);
                assert(block[i as int] == e@);
                out.push(e);
                i += 1;
                assert(entries(out@) =~= before.push(e@));
                assert(before.push(e@) =~= start + block.take(i as int));
            }
            assert(block.take(i as int) =~= block);
        },
        None => {
            assert(start + Seq::empty() =~= start);
        },
    }
}

/// Parse a `yarn.lock` of yarn classic.
pub fn parse_yarn_v1(content: &str) -> (r: Result<Vec<LockfileEntry>, LockfileError>)
    ensures
        r matches Ok(v) && entries(v@) == yarn_entries(content@),
{
    let content: Vec<char> = chars_of(content);
    let rows: Vec<&[char]> = lines_of(content.as_slice());
    let ghost all = lines(content@);
    let mut out: Vec<LockfileEntry> = Vec::new();
    let mut names: Vec<&[char]> = Vec::new();
    let mut version: Option<&[char]> = None;
    let mut i: usize = 0;
    assert(entries(out@) =~= Seq::empty());
    assert(views(names@) =~= Seq::empty());
    while i < rows.len()
        invariant
            i <= rows.len(),
            views(rows@) == all,
            entries(out@) == yarn_state(all, i as nat).done,
            views(names@) == yarn_state(all, i as nat).names,
            version_view(version) == yarn_state(all, i as nat).version,
        decreases rows.len() - i,
    {
        assert(rows@[i as int]@ == all[i as int]);
        let line: &[char] = rows[i];
        if line.len() > 0 && line[0] != '#' {
            if line[0] != ' ' && line[0] != '\t' {
                flush(&names, version, &mut out);
                names = read_header(line);
                version = None;
            } else {
                match read_version_line(line) {
                    Some(v) => {
                        version = Some(v);
                    },
                    None => {},
                }
            }
        }
        i += 1;
    }
    flush(&names, version, &mut out);
    Ok(out)
}

} // verus!
