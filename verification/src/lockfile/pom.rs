//! Maven: `pom.xml`.
use vstd::prelude::*;
use vstd::slice::slice_subrange;

use crate::entry::{entries, Ecosystem, Entry, LockfileEntry};
use crate::lockfile::{push_some, LockfileError};
use crate::text::{
    append, chars_of, contains_char, find, find_char, find_slice, lemma_find, lemma_find_char, position_of,
    starts_with, starts_with_slice, string_of, trim, trim_text,
};

verus! {

/// The tag that opens an element.
pub open spec fn opening(name: Seq<char>) -> Seq<char> {
    seq!['<'] + name + seq!['>']
}

/// The tag that closes an element.
pub open spec fn closing(name: Seq<char>) -> Seq<char> {
    seq!['<', '/'] + name + seq!['>']
}

/// `s` without its blocks from `open` to the next `close`. From a block that is not closed on,
/// the text is left as it is.
pub open spec fn without_blocks(s: Seq<char>, open: Seq<char>, close: Seq<char>) -> Seq<char>
    decreases s.len(),
    via without_blocks_decreases
{
    match find(s, open) {
        Some(i) => {
            let after = s.skip(i + open.len());
            match find(after, close) {
                Some(j) => if open.len() > 0 {
                    s.take(i) + without_blocks(after.skip(j + close.len()), open, close)
                } else {
                    s
                },
                None => s,
            }
        },
        None => s,
    }
}

#[via_fn]
proof fn without_blocks_decreases(s: Seq<char>, open: Seq<char>, close: Seq<char>) {
    lemma_find(s, open);
    if find(s, open) is Some {
        lemma_find(s.skip(find(s, open).unwrap() + open.len()), close);
    }
}

/// How deep in the elements the text after a piece of markup is, where the markup itself stands
/// at `depth`.
pub open spec fn depth_after(markup: Seq<char>, depth: nat) -> nat {
    if markup[1] == '/' {
        if depth > 0 {
            (depth - 1) as nat
        } else {
            0
        }
    } else if markup[1] == '!' || markup[1] == '?' || markup[markup.len() - 2] == '/' {
        depth
    } else {
        depth + 1
    }
}

/// The text in the first element `tag` of `s` that no other element encloses, where `s` begins
/// at `depth`: what stands between its opening tag and the next closing tag of that name.
pub open spec fn inner_text(s: Seq<char>, tag: Seq<char>, depth: nat) -> Option<Seq<char>>
    decreases s.len(),
    via inner_text_decreases
{
    if s.len() == 0 {
        None
    } else if depth == 0 && opening(tag).is_prefix_of(s) {
        let after = s.skip(opening(tag).len() as int);
        match find(after, closing(tag)) {
            Some(j) => Some(after.take(j)),
            None => None,
        }
    } else if s[0] != '<' {
        inner_text(s.skip(1), tag, depth)
    } else {
        match find_char(s, '>') {
            Some(k) => inner_text(s.skip(k + 1), tag, depth_after(s.take(k + 1), depth)),
            None => None,
        }
    }
}

#[via_fn]
proof fn inner_text_decreases(s: Seq<char>, tag: Seq<char>, depth: nat) {
    lemma_find_char(s, '>');
}

/// A version that is concrete: neither a property reference nor a range.
pub open spec fn is_concrete(version: Seq<char>) -> bool {
    &&& !"${"@.is_prefix_of(version)
    &&& !(version.len() > 0 && (version[0] == '[' || version[0] == '('))
    &&& !version.contains(',')
}

/// The coordinate in a `<dependency>` block, where it is complete and concrete.
pub open spec fn dependency(block: Seq<char>) -> Option<Entry> {
    match (
        inner_text(block, "groupId"@, 0),
        inner_text(block, "artifactId"@, 0),
        inner_text(block, "version"@, 0),
    ) {
        (Some(group), Some(artifact), Some(version)) => if trim(group).len() > 0 && trim(artifact).len() > 0
            && trim(version).len() > 0 && is_concrete(trim(version)) {
            Some(
                Entry {
                    ecosystem: Ecosystem::Maven,
                    name: trim(group) + seq![':'] + trim(artifact),
                    version: trim(version),
                },
            )
        } else {
            None
        },
        _ => None,
    }
}

/// The coordinates in the `<dependency>` blocks of `s`, in order.
pub open spec fn dependencies(s: Seq<char>) -> Seq<Entry>
    decreases s.len(),
    via dependencies_decreases
{
    match find(s, opening("dependency"@)) {
        Some(i) => {
            let after = s.skip(i + opening("dependency"@).len());
            match find(after, closing("dependency"@)) {
                Some(j) => {
                    let rest = dependencies(after.skip(j + closing("dependency"@).len()));
                    match dependency(after.take(j)) {
                        Some(e) => seq![e] + rest,
                        None => rest,
                    }
                },
                None => Seq::empty(),
            }
        },
        None => Seq::empty(),
    }
}

#[via_fn]
proof fn dependencies_decreases(s: Seq<char>) {
    let open = opening("dependency"@);
    lemma_find(s, open);
    if find(s, open) is Some {
        lemma_find(s.skip(find(s, open).unwrap() + open.len()), closing("dependency"@));
    }
}

/// The dependencies of a `pom.xml`: those outside `<dependencyManagement>` and comments.
pub open spec fn pom_entries(content: Seq<char>) -> Seq<Entry> {
    let managed = without_blocks(content, opening("dependencyManagement"@), closing("dependencyManagement"@));
    dependencies(without_blocks(managed, "<!--"@, "-->"@))
}

/// The tag that opens an element.
fn opening_tag(name: &str) -> (r: Vec<char>)
    ensures
        r@ == opening(name@),
        r@.len() > 0,
{
    let mut r: Vec<char> = Vec::new();
    r.push('<');
    append(&mut r, chars_of(name).as_slice());
    r.push('>');
    assert(r@ =~= opening(name@));
    r
}

/// The tag that closes an element.
fn closing_tag(name: &str) -> (r: Vec<char>)
    ensures
        r@ == closing(name@),
{
    let mut r: Vec<char> = Vec::new();
    r.push('<');
    r.push('/');
    append(&mut r, chars_of(name).as_slice());
    r.push('>');
    assert(r@ =~= closing(name@));
    r
}

/// Drops the blocks from `open` to the next `close`.
fn drop_blocks(s: &[char], open: &[char], close: &[char]) -> (r: Vec<char>)
    requires
        open@.len() > 0,
    ensures
        r@ == without_blocks(s@, open@, close@),
{
    let mut out: Vec<char> = Vec::new();
    let mut rest: &[char] = s;
    let ghost whole = without_blocks(s@, open@, close@);
    assert(out@ + without_blocks(rest@, open@, close@) =~= whole);
    loop
        invariant
            open@.len() > 0,
            whole == without_blocks(s@, open@, close@),
            out@ + without_blocks(rest@, open@, close@) == whole,
        decreases rest@.len(),
    {
        let ghost before = out@;
        match find_slice(rest, open) {
            Some(i) => {
                assert(i + open@.len() <= rest.len());
                let after: &[char] = slice_subrange(rest, i + open.len(), rest.len());
                assert(after@ =~= rest@.skip(i + open@.len()));
                match find_slice(after, close) {
                    Some(j) => {
                        assert(j + close@.len() <= after.len());
                        let front: &[char] = slice_subrange(rest, 0, i);
                        assert(front@ =~= rest@.take(i as int));
                        append(&mut out, front);
                        let next: &[char] = slice_subrange(after, j + close.len(), after.len());
                        assert(next@ =~= after@.skip(j + close@.len()));
                        assert(out@ + without_blocks(next@, open@, close@) =~= before + (front@
                            + without_blocks(next@, open@, close@)));
                        rest = next;
                    },
                    None => {
                        append(&mut out, rest);
                        return out;
                    },
                }
            },
            None => {
                append(&mut out, rest);
                return out;
            },
        }
    }
}

/// Strips the blocks of an XML element by its name. If a block is malformed the rest is kept, so
/// that no dependency is lost to it.
pub fn strip_xml_block(content: &str, name: &str) -> (r: String)
    ensures
        r@ == without_blocks(content@, opening(name@), closing(name@)),
{
    let content: Vec<char> = chars_of(content);
    let open: Vec<char> = opening_tag(name);
    let close: Vec<char> = closing_tag(name);
    let left: Vec<char> = drop_blocks(content.as_slice(), open.as_slice(), close.as_slice());
    string_of(left.as_slice())
}

/// Strips XML comments.
pub fn strip_xml_comments(content: &str) -> (r: String)
    ensures
        r@ == without_blocks(content@, "<!--"@, "-->"@),
{
    proof {
        reveal_strlit("<!--");
    }
    let content: Vec<char> = chars_of(content);
    let open: Vec<char> = chars_of("<!--");
    let close: Vec<char> = chars_of("-->");
    let left: Vec<char> = drop_blocks(content.as_slice(), open.as_slice(), close.as_slice());
    string_of(left.as_slice())
}

/// The text in the first child element `tag`.
fn child_text<'a>(block: &'a [char], tag: &str) -> (r: Option<&'a [char]>)
    ensures
        match r {
            Some(t) => inner_text(block@, tag@, 0) == Some(t@),
            None => inner_text(block@, tag@, 0) is None,
        },
{
    let open: Vec<char> = opening_tag(tag);
    let close: Vec<char> = closing_tag(tag);
    let total: usize = block.len();
    let mut rest: &'a [char] = block;
    let mut depth: usize = 0;
    while rest.len() > 0
        invariant
            open@ == opening(tag@),
            close@ == closing(tag@),
            depth + rest@.len() <= total,
            inner_text(block@, tag@, 0) == inner_text(rest@, tag@, depth as nat),
        decreases rest@.len(),
    {
        if depth == 0 && starts_with_slice(rest, open.as_slice()) {
            let after: &'a [char] = slice_subrange(rest, open.len(), rest.len());
            assert(after@ =~= rest@.skip(open@.len() as int));
            match find_slice(after, close.as_slice()) {
                Some(j) => {
                    let text: &'a [char] = slice_subrange(after, 0, j);
                    assert(text@ =~= after@.take(j as int));
                    return Some(text);
                },
                None => {
                    return None;
                },
            }
        }
        if rest[0] != '<' {
            let next: &'a [char] = slice_subrange(rest, 1, rest.len());
            assert(next@ =~= rest@.skip(1));
            rest = next;
        } else {
            match position_of(rest, '>') {
                Some(k) => {
                    assert(k > 0);
                    let ghost markup = rest@.take(k + 1);
                    assert(markup.len() == k + 1);
                    assert(markup[1] == rest@[1] && markup[markup.len() - 2] == rest@[k - 1]);
                    let ghost deeper = depth_after(markup, depth as nat);
                    let second: char = rest[1];
                    let before_last: char = rest[k - 1];
                    if second == '/' {
                        if depth > 0 {
                            depth -= 1;
                        }
                    } else if second != '!' && second != '?' && before_last != '/' {
                        depth += 1;
                    }
                    assert(depth == deeper);
                    let next: &'a [char] = slice_subrange(rest, k + 1, rest.len());
                    assert(next@ =~= rest@.skip(k + 1));
                    rest = next;
                },
                None => {
                    return None;
                },
            }
        }
    }
    None
}

/// Return the first inner text of a top-level child tag named `tag` inside `block`. Doesn't try
/// to handle namespaces.
pub fn xml_inner_text(block: &str, tag: &str) -> (r: Option<String>)
    ensures
        match r {
            Some(t) => inner_text(block@, tag@, 0) == Some(t@),
            None => inner_text(block@, tag@, 0) is None,
        },
{
    let block: Vec<char> = chars_of(block);
    match child_text(block.as_slice(), tag) {
        Some(t) => Some(string_of(t)),
        None => None,
    }
}

/// Reads one `<dependency>` block.
fn read_dependency(block: &[char]) -> (r: Option<LockfileEntry>)
    ensures
        match r {
            Some(e) => dependency(block@) == Some(e@),
            None => dependency(block@) is None,
        },
{
    match (child_text(block, "groupId"), child_text(block, "artifactId"), child_text(block, "version")) {
        (Some(group), Some(artifact), Some(version)) => {
            let group: &[char] = trim_text(group);
            let artifact: &[char] = trim_text(artifact);
            let version: &[char] = trim_text(version);
            if group.len() == 0 || artifact.len() == 0 || version.len() == 0 {
                return None;
            }
            if starts_with(version, "${") || version[0] == '[' || version[0] == '(' || contains_char(version, ',') {
                return None;
            }
            let mut name: Vec<char> = Vec::new();
            append(&mut name, group);
            name.push(':');
            append(&mut name, artifact);
            assert(name@ =~= group@ + seq![':'] + artifact@);
            Some(
                LockfileEntry {
                    ecosystem: Ecosystem::Maven,
                    name: string_of(name.as_slice()),
                    version: string_of(version),
                },
            )
        },
        _ => None,
    }
}

/// Parse Maven's pom.xml for direct dependencies with concrete pinned versions.
///
/// groupId / artifactId / version triples are read from `<dependency>` blocks;
/// `<dependencyManagement>` declarations are skipped because they pin versions for children and
/// are no dependencies of the project itself. Version property references (`${spring.version}`)
/// and version ranges (`[1.0,2.0)`, `(0,)`) are skipped too: the service can only act on a fully
/// concrete coordinate. `<dependency>` blocks inside `<plugin>` declarations are build-time
/// dependencies, which are gated.
pub fn parse_pom_xml(content: &str) -> (r: Result<Vec<LockfileEntry>, LockfileError>)
    ensures
        r matches Ok(v) && entries(v@) == pom_entries(content@),
{
    let unmanaged: String = strip_xml_block(content, "dependencyManagement");
    let stripped: Vec<char> = chars_of(strip_xml_comments(unmanaged.as_str()).as_str());
    let open: Vec<char> = opening_tag("dependency");
    let close: Vec<char> = closing_tag("dependency");
    let mut out: Vec<LockfileEntry> = Vec::new();
    let mut rest: &[char] = stripped.as_slice();
    let ghost all = dependencies(stripped@);
    assert(entries(out@) + dependencies(rest@) =~= all);
    loop
        invariant
            open@ == opening("dependency"@),
            open@.len() > 0,
            close@ == closing("dependency"@),
            entries(out@) + dependencies(rest@) == all,
            all == pom_entries(content@),
        decreases rest@.len(),
    {
        let ghost before = entries(out@);
        match find_slice(rest, open.as_slice()) {
            Some(i) => {
                assert(i + open@.len() <= rest.len());
                let after: &[char] = slice_subrange(rest, i + open.len(), rest.len());
                assert(after@ =~= rest@.skip(i + open@.len()));
                match find_slice(after, close.as_slice()) {
                    Some(j) => {
                        assert(j + close@.len() <= after.len());
                        let block: &[char] = slice_subrange(after, 0, j);
                        assert(block@ =~= after@.take(j as int));
                        let next: &[char] = slice_subrange(after, j + close.len(), after.len());
                        assert(next@ =~= after@.skip(j + close@.len()));
                        let e: Option<LockfileEntry> = read_dependency(block);
                        push_some(&mut out, e);
                        assert(entries(out@) + dependencies(next@) =~= before + dependencies(rest@));
                        rest = next;
                    },
                    None => {
                        assert(before + Seq::empty() =~= before);
                        return Ok(out);
                    },
                }
            },
            None => {
                assert(before + Seq::empty() =~= before);
                return Ok(out);
            },
        }
    }
}

} // verus!
