//! What a `pom.xml` lists: the coordinate of each dependency, whatever else its block holds.
use vstd::prelude::*;

use crate::entry::{Ecosystem, Entry};
use crate::lockfile::pom::{
    closing, dependencies, dependency, depth_after, inner_text, is_concrete, opening, pom_entries, without_blocks,
};
use crate::text::{find, is_space, trim};
use crate::text_laws::{lacks, lemma_first_after, lemma_first_char, lemma_first_text};

verus! {

/// A piece of a document: text, an element with its attributes and what it holds, or markup that
/// stands alone, such as a comment, an instruction or an empty element.
pub enum Node {
    Text(Seq<char>),
    Element(Seq<char>, Seq<char>, Seq<Node>),
    Lone(Seq<char>),
}

/// The name of an element, as it stands in its tags.
pub open spec fn is_tag_name(name: Seq<char>) -> bool {
    name.len() > 0 && lacks(name, '<') && lacks(name, '>') && lacks(name, '/') && name[0] != '!' && name[0] != '?'
}

/// What stands behind the name in an opening tag: nothing, or attributes.
pub open spec fn is_attributes(attributes: Seq<char>) -> bool {
    attributes.len() == 0 || lacks(attributes, '>') && is_space(attributes[0]) && attributes.last() != '/'
}

/// What stands between the angle brackets of markup that stands alone.
pub open spec fn is_lone(inside: Seq<char>) -> bool {
    inside.len() > 0 && lacks(inside, '>') && inside[0] != '/' && (inside[0] == '!' || inside[0] == '?' || inside.last()
        == '/')
}

impl Node {
    /// The piece is written as such: text has no markup in it, and elements have names.
    pub open spec fn written(self) -> bool
        decreases self,
    {
        match self {
            Node::Text(t) => lacks(t, '<'),
            Node::Element(name, attributes, children) => is_tag_name(name) && is_attributes(attributes) && forall|
                i: int,
            |
                0 <= i < children.len() ==> (#[trigger] children[i]).written(),
            Node::Lone(inside) => is_lone(inside),
        }
    }

    /// The text of the piece.
    pub open spec fn source(self) -> Seq<char>
        decreases self,
    {
        match self {
            Node::Text(t) => t,
            Node::Element(name, attributes, children) => opening(name + attributes) + sources(children) + closing(name),
            Node::Lone(inside) => opening(inside),
        }
    }

    /// The piece is an element with the name and no attributes.
    pub open spec fn is_named(self, name: Seq<char>) -> bool {
        self matches Node::Element(n, attributes, _) && n + attributes == name
    }
}

/// The text of pieces, one after the other.
pub open spec fn sources(nodes: Seq<Node>) -> Seq<char>
    decreases nodes,
{
    if nodes.len() == 0 {
        Seq::empty()
    } else {
        nodes[0].source() + sources(nodes.drop_first())
    }
}

/// Text is passed over.
proof fn lemma_text_is_passed(t: Seq<char>, rest: Seq<char>, tag: Seq<char>, depth: nat)
    requires
        lacks(t, '<'),
    ensures
        inner_text(t + rest, tag, depth) == inner_text(rest, tag, depth),
    decreases t.len(),
{
    let s = t + rest;
    if t.len() == 0 {
        assert(s =~= rest);
    } else {
        assert(s[0] == t[0]);
        assert(s.skip(1) =~= t.skip(1) + rest);
        assert(lacks(t.skip(1), '<'));
        lemma_text_is_passed(t.skip(1), rest, tag, depth);
        if opening(tag).is_prefix_of(s) {
            assert(opening(tag)[0] == s[0]);
        }
    }
}

/// Markup is passed over, where it is not the tag that is looked for.
proof fn lemma_markup_is_passed(inside: Seq<char>, rest: Seq<char>, tag: Seq<char>, depth: nat)
    requires
        inside.len() > 0,
        lacks(inside, '>'),
        lacks(tag, '>'),
        depth > 0 || inside != tag,
    ensures
        inner_text(opening(inside) + rest, tag, depth) == inner_text(rest, tag, depth_after(opening(inside), depth)),
{
    let s = opening(inside) + rest;
    let front = seq!['<'] + inside;
    assert(s =~= front + seq!['>'] + rest);
    lemma_first_char(front, '>', rest);
    assert(s[0] == '<');
    assert(s.take(front.len() + 1int) =~= opening(inside));
    if depth == 0 && opening(tag).is_prefix_of(s) {
        assert(s.take(opening(tag).len() as int) =~= opening(tag));
        assert(opening(tag)[tag.len() + 1int] == '>');
        assert(s[tag.len() + 1int] == '>');
        if tag.len() < inside.len() {
            assert(s[tag.len() + 1int] == inside[tag.len() as int]);
        } else if tag.len() > inside.len() {
            assert(opening(tag)[inside.len() + 1int] == tag[inside.len() as int]);
            assert(s[inside.len() + 1int] == '>');
        } else {
            assert forall|i: int| 0 <= i < tag.len() implies tag[i] == inside[i] by {
                assert(opening(tag)[i + 1] == tag[i]);
                assert(s[i + 1] == inside[i]);
            }
            assert(tag =~= inside);
        }
    }
}

/// An opening tag leads one deeper, with or without attributes.
proof fn lemma_opening_leads_deeper(
    name: Seq<char>,
    attributes: Seq<char>,
    rest: Seq<char>,
    tag: Seq<char>,
    depth: nat,
)
    requires
        is_tag_name(name),
        is_attributes(attributes),
        lacks(tag, '>'),
        depth > 0 || name + attributes != tag,
    ensures
        inner_text(opening(name + attributes) + rest, tag, depth) == inner_text(rest, tag, depth + 1),
{
    let inside = name + attributes;
    let markup = opening(inside);
    assert forall|i: int| 0 <= i < inside.len() implies #[trigger] inside[i] != '>' by {
        if i < name.len() {
            assert(inside[i] == name[i]);
        } else {
            assert(inside[i] == attributes[i - name.len()]);
        }
    }
    lemma_markup_is_passed(inside, rest, tag, depth);
    assert(markup[1] == name[0]);
    assert(name[0] != '/');
    assert(markup[markup.len() - 2] == inside.last());
    if attributes.len() == 0 {
        assert(inside.last() == name[name.len() - 1]);
    } else {
        assert(inside.last() == attributes.last());
    }
}

/// Markup that stands alone leads nowhere.
proof fn lemma_lone_markup_leads_nowhere(inside: Seq<char>, rest: Seq<char>, tag: Seq<char>, depth: nat)
    requires
        is_lone(inside),
        is_tag_name(tag),
    ensures
        inner_text(opening(inside) + rest, tag, depth) == inner_text(rest, tag, depth),
{
    let markup = opening(inside);
    assert(tag[tag.len() - 1] != '/');
    assert(inside != tag);
    lemma_markup_is_passed(inside, rest, tag, depth);
    assert(markup[1] == inside[0]);
    assert(markup[markup.len() - 2] == inside.last());
}

/// A closing tag leads one up.
proof fn lemma_closing_leads_up(name: Seq<char>, rest: Seq<char>, tag: Seq<char>, depth: nat)
    requires
        is_tag_name(name),
    ensures
        inner_text(closing(name) + rest, tag, depth + 1) == inner_text(rest, tag, depth),
{
    let s = closing(name) + rest;
    let front = seq!['<', '/'] + name;
    assert(s =~= front + seq!['>'] + rest);
    lemma_first_char(front, '>', rest);
    assert(s[0] == '<');
    let markup = s.take(front.len() + 1int);
    assert(markup =~= closing(name));
    assert(markup[1] == '/');
}

/// A piece is passed over, where it is not an element of the name that is looked for at the top.
proof fn lemma_node_is_passed(node: Node, rest: Seq<char>, tag: Seq<char>, depth: nat)
    requires
        node.written(),
        is_tag_name(tag),
        depth > 0 || !node.is_named(tag),
    ensures
        inner_text(node.source() + rest, tag, depth) == inner_text(rest, tag, depth),
    decreases node, 0nat,
{
    match node {
        Node::Text(t) => lemma_text_is_passed(t, rest, tag, depth),
        Node::Element(name, attributes, children) => {
            let after = closing(name) + rest;
            assert(node.source() + rest =~= opening(name + attributes) + (sources(children) + after));
            lemma_opening_leads_deeper(name, attributes, sources(children) + after, tag, depth);
            lemma_nodes_are_passed(children, after, tag, depth + 1);
            lemma_closing_leads_up(name, rest, tag, depth);
        },
        Node::Lone(inside) => lemma_lone_markup_leads_nowhere(inside, rest, tag, depth),
    }
}

/// Pieces are passed over.
proof fn lemma_nodes_are_passed(nodes: Seq<Node>, rest: Seq<char>, tag: Seq<char>, depth: nat)
    requires
        forall|i: int| 0 <= i < nodes.len() ==> (#[trigger] nodes[i]).written(),
        is_tag_name(tag),
        depth > 0 || forall|i: int| 0 <= i < nodes.len() ==> !(#[trigger] nodes[i]).is_named(tag),
    ensures
        inner_text(sources(nodes) + rest, tag, depth) == inner_text(rest, tag, depth),
    decreases nodes, 1nat,
{
    if nodes.len() == 0 {
        assert(sources(nodes) + rest =~= rest);
    } else {
        let tail = nodes.drop_first();
        assert(sources(nodes) + rest =~= nodes[0].source() + (sources(tail) + rest));
        assert forall|i: int| 0 <= i < tail.len() implies (#[trigger] tail[i]).written() && (depth > 0
            || !tail[i].is_named(tag)) by {
            assert(tail[i] == nodes[i + 1]);
        }
        lemma_node_is_passed(nodes[0], sources(tail) + rest, tag, depth);
        lemma_nodes_are_passed(tail, rest, tag, depth);
    }
}

/// The text of a child is what stands between its tags, whatever stands before it and behind it:
/// text, other elements with or without attributes, markup that stands alone, and elements of the
/// same name inside of others. The first child with the
/// name is the one that is read.
pub proof fn law_child_is_read_wherever_it_stands(
    before: Seq<Node>,
    tag: Seq<char>,
    text: Seq<char>,
    after: Seq<char>,
)
    requires
        forall|i: int| 0 <= i < before.len() ==> (#[trigger] before[i]).written() && !before[i].is_named(tag),
        is_tag_name(tag),
        lacks(text, '<'),
    ensures
        inner_text(sources(before) + (opening(tag) + text + closing(tag)) + after, tag, 0) == Some(text),
{
    let element = opening(tag) + text + closing(tag);
    let s = element + after;
    assert(sources(before) + element + after =~= sources(before) + s);
    lemma_nodes_are_passed(before, s, tag, 0);
    assert(s.take(opening(tag).len() as int) =~= opening(tag));
    assert(opening(tag).is_prefix_of(s));
    let inner = s.skip(opening(tag).len() as int);
    assert(inner =~= text + closing(tag) + after);
    assert(closing(tag)[0] == '<');
    lemma_first_text(text, closing(tag), after);
}

/// Where no child has the name there is no text.
pub proof fn law_missing_child_has_no_text(children: Seq<Node>, tag: Seq<char>)
    requires
        forall|i: int| 0 <= i < children.len() ==> (#[trigger] children[i]).written() && !children[i].is_named(tag),
        is_tag_name(tag),
    ensures
        inner_text(sources(children), tag, 0) is None,
{
    lemma_nodes_are_passed(children, Seq::empty(), tag, 0);
    assert(sources(children) + Seq::<char>::empty() =~= sources(children));
}

/// The text of pieces is that of the first, then that of one, then that of the others.
proof fn lemma_sources_split(nodes: Seq<Node>, i: int)
    requires
        0 <= i < nodes.len(),
    ensures
        sources(nodes) == sources(nodes.take(i)) + nodes[i].source() + sources(nodes.skip(i + 1)),
    decreases i,
{
    if i == 0 {
        assert(nodes.take(0) =~= Seq::empty());
        assert(nodes.drop_first() =~= nodes.skip(1));
        assert(sources(nodes) =~= sources(nodes.take(0)) + nodes[0].source() + sources(nodes.skip(1)));
    } else {
        let tail = nodes.drop_first();
        lemma_sources_split(tail, i - 1);
        assert(tail.take(i - 1) =~= nodes.take(i).drop_first());
        assert(tail.skip(i) =~= nodes.skip(i + 1));
        assert(sources(nodes) =~= sources(nodes.take(i)) + nodes[i].source() + sources(nodes.skip(i + 1)));
    }
}

/// The first child with the name stands at the position and holds the text.
pub open spec fn is_first_child(children: Seq<Node>, i: int, tag: Seq<char>, text: Seq<char>) -> bool {
    &&& 0 <= i < children.len()
    &&& children[i] == Node::Element(tag, Seq::empty(), seq![Node::Text(text)])
    &&& lacks(text, '<')
    &&& forall|k: int| 0 <= k < i ==> !(#[trigger] children[k]).is_named(tag)
}

/// The first child with a name is the one that is read.
proof fn lemma_first_child(children: Seq<Node>, i: int, tag: Seq<char>, text: Seq<char>)
    requires
        forall|k: int| 0 <= k < children.len() ==> (#[trigger] children[k]).written(),
        is_first_child(children, i, tag, text),
        is_tag_name(tag),
    ensures
        inner_text(sources(children), tag, 0) == Some(text),
{
    let before = children.take(i);
    let after = sources(children.skip(i + 1));
    assert forall|k: int| 0 <= k < before.len() implies (#[trigger] before[k]).written() && !before[k].is_named(
        tag,
    ) by {
        assert(before[k] == children[k]);
    }
    lemma_sources_split(children, i);
    let one = seq![Node::Text(text)];
    assert(one.drop_first() =~= Seq::empty());
    reveal_with_fuel(sources, 2);
    assert(sources(one) =~= text);
    assert(tag + Seq::<char>::empty() =~= tag);
    assert(children[i].source() == opening(tag) + text + closing(tag));
    law_child_is_read_wherever_it_stands(before, tag, text, after);
}

/// The names of the three children.
proof fn lemma_tag_names()
    ensures
        is_tag_name("groupId"@) && is_tag_name("artifactId"@) && is_tag_name("version"@),
        "groupId"@ != "artifactId"@ && "groupId"@ != "version"@ && "artifactId"@ != "version"@,
{
    reveal_strlit("groupId");
    reveal_strlit("artifactId");
    reveal_strlit("version");
    assert("groupId"@[0] == 'g' && "artifactId"@[0] == 'a' && "version"@[0] == 'v');
}

/// The version is neither a reference to a property nor a range.
pub open spec fn names_one_version(v: Seq<char>) -> bool {
    v.len() > 0 && v[0] != '[' && v[0] != '(' && lacks(v, ',') && !(v.len() > 1 && v[0] == '$' && v[1] == '{')
}

proof fn lemma_concrete(v: Seq<char>)
    ensures
        v.len() > 0 ==> (is_concrete(v) <==> names_one_version(v)),
{
    reveal_strlit("${");
    let p = "${"@;
    if v.len() > 1 && v[0] == '$' && v[1] == '{' {
        assert(p.is_prefix_of(v)) by {
            assert(v.subrange(0, 2) =~= p);
        }
    }
    if p.is_prefix_of(v) {
        assert(v[0] == p[0] && v[1] == p[1]);
    }
    if v.contains(',') {
        let i = choose|i: int| 0 <= i < v.len() && v[i] == ',';
        assert(v[i] == ',');
    }
    if !lacks(v, ',') {
        let i = choose|i: int| 0 <= i < v.len() && #[trigger] v[i] == ',';
        assert(v.contains(v[i]));
    }
}

/// A dependency is told by its group, its artifact and its version, in any order and whatever its
/// other children are: a scope, a classifier, exclusions with coordinates of their own, text. It
/// is listed if and only if none of the three is empty and the version is one version.
pub proof fn law_dependency_is_told_by_three_children(
    children: Seq<Node>,
    i: int,
    group: Seq<char>,
    j: int,
    artifact: Seq<char>,
    k: int,
    version: Seq<char>,
)
    requires
        forall|n: int| 0 <= n < children.len() ==> (#[trigger] children[n]).written(),
        is_first_child(children, i, "groupId"@, group),
        is_first_child(children, j, "artifactId"@, artifact),
        is_first_child(children, k, "version"@, version),
    ensures
        dependency(sources(children)) == if trim(group).len() > 0 && trim(artifact).len() > 0 && names_one_version(
            trim(version),
        ) {
            Some(
                Entry {
                    ecosystem: Ecosystem::Maven,
                    name: trim(group) + seq![':'] + trim(artifact),
                    version: trim(version),
                },
            )
        } else {
            None
        },
{
    lemma_tag_names();
    lemma_first_child(children, i, "groupId"@, group);
    lemma_first_child(children, j, "artifactId"@, artifact);
    lemma_first_child(children, k, "version"@, version);
    lemma_concrete(trim(version));
}

/// A dependency that lacks its group, its artifact or its version is not listed, whatever else it
/// holds; what other elements enclose does not make up for it.
pub proof fn law_incomplete_dependency_is_not_listed(children: Seq<Node>, tag: Seq<char>)
    requires
        forall|n: int| 0 <= n < children.len() ==> (#[trigger] children[n]).written() && !children[n].is_named(tag),
        tag == "groupId"@ || tag == "artifactId"@ || tag == "version"@,
    ensures
        dependency(sources(children)) is None,
{
    lemma_tag_names();
    law_missing_child_has_no_text(children, tag);
}

/// A dependency whose group, artifact and version are written one after the other is listed with
/// them whatever follows, be it further elements or anything else.
pub proof fn law_coordinate_is_listed_whatever_follows(
    group: Seq<char>,
    artifact: Seq<char>,
    version: Seq<char>,
    more: Seq<char>,
)
    requires
        lacks(group, '<') && lacks(artifact, '<') && lacks(version, '<'),
        trim(group).len() > 0 && trim(artifact).len() > 0 && names_one_version(trim(version)),
    ensures
        dependency(
            opening("groupId"@) + group + closing("groupId"@) + (opening("artifactId"@) + artifact + closing(
                "artifactId"@,
            )) + (opening("version"@) + version + closing("version"@)) + more,
        ) == Some(
            Entry {
                ecosystem: Ecosystem::Maven,
                name: trim(group) + seq![':'] + trim(artifact),
                version: trim(version),
            },
        ),
{
    lemma_tag_names();
    let g = Node::Element("groupId"@, Seq::empty(), seq![Node::Text(group)]);
    let a = Node::Element("artifactId"@, Seq::empty(), seq![Node::Text(artifact)]);
    let v = Node::Element("version"@, Seq::empty(), seq![Node::Text(version)]);
    let gt = opening("groupId"@) + group + closing("groupId"@);
    let at = opening("artifactId"@) + artifact + closing("artifactId"@);
    let vt = opening("version"@) + version + closing("version"@);
    assert("groupId"@ + Seq::<char>::empty() =~= "groupId"@ && "artifactId"@ + Seq::<char>::empty() =~= "artifactId"@);
    lemma_text_element("groupId"@, group);
    lemma_text_element("artifactId"@, artifact);
    lemma_text_element("version"@, version);
    let whole = gt + at + vt + more;
    assert(whole =~= sources(Seq::empty()) + gt + (at + vt + more));
    law_child_is_read_wherever_it_stands(Seq::empty(), "groupId"@, group, at + vt + more);
    lemma_sources_of_one(g);
    assert(whole =~= sources(seq![g]) + at + (vt + more));
    law_child_is_read_wherever_it_stands(seq![g], "artifactId"@, artifact, vt + more);
    lemma_sources_of_two(g, a);
    assert(whole =~= sources(seq![g, a]) + vt + more);
    law_child_is_read_wherever_it_stands(seq![g, a], "version"@, version, more);
    lemma_concrete(trim(version));
}

/// The text of an element that holds text.
proof fn lemma_text_element(tag: Seq<char>, text: Seq<char>)
    requires
        is_tag_name(tag),
        lacks(text, '<'),
    ensures
        Node::Element(tag, Seq::empty(), seq![Node::Text(text)]).source() == opening(tag) + text + closing(tag),
        Node::Element(tag, Seq::empty(), seq![Node::Text(text)]).written(),
{
    let one = seq![Node::Text(text)];
    assert(tag + Seq::<char>::empty() =~= tag);
    lemma_sources_of_one(Node::Text(text));
    assert(Node::Text(text).source() == text);
    assert(Node::Text(text).written());
    assert forall|i: int| 0 <= i < one.len() implies (#[trigger] one[i]).written() by {
        assert(one[i] == Node::Text(text));
    }
}

proof fn lemma_sources_of_one(a: Node)
    ensures
        sources(seq![a]) == a.source(),
{
    assert(seq![a].drop_first() =~= Seq::empty());
    assert(sources(Seq::empty()) =~= Seq::<char>::empty());
    assert(sources(seq![a]) =~= a.source());
}

proof fn lemma_sources_of_two(a: Node, b: Node)
    ensures
        sources(seq![a, b]) == a.source() + b.source(),
{
    assert(seq![a, b].drop_first() =~= seq![b]);
    lemma_sources_of_one(b);
}

// ---------------------------------------------------------------------------
// Blocks
// ---------------------------------------------------------------------------

/// The tags of an element do not overlap themselves.
proof fn lemma_tags(tag: Seq<char>)
    requires
        is_tag_name(tag),
    ensures
        forall|i: int| 0 < i < opening(tag).len() ==> #[trigger] opening(tag)[i] != opening(tag)[0],
        forall|i: int| 0 < i < closing(tag).len() ==> #[trigger] closing(tag)[i] != closing(tag)[0],
{
    assert forall|i: int| 0 < i < opening(tag).len() implies #[trigger] opening(tag)[i] != opening(tag)[0] by {
        if i <= tag.len() {
            assert(opening(tag)[i] == tag[i - 1]);
        }
    }
    assert forall|i: int| 0 < i < closing(tag).len() implies #[trigger] closing(tag)[i] != closing(tag)[0] by {
        if 1 < i <= tag.len() + 1 {
            assert(closing(tag)[i] == tag[i - 2]);
        }
    }
}

/// Dependencies are read one by one: each block gives what it gives by itself, whatever stands
/// between the blocks.
pub proof fn law_dependencies_are_read_one_by_one(a: Seq<char>, block: Seq<char>, rest: Seq<char>)
    requires
        find(a, opening("dependency"@)) is None,
        find(block, closing("dependency"@)) is None,
    ensures
        dependencies(a) == Seq::<Entry>::empty(),
        dependencies(a + opening("dependency"@) + (block + closing("dependency"@) + rest)) == match dependency(
            block,
        ) {
            Some(e) => seq![e] + dependencies(rest),
            None => dependencies(rest),
        },
{
    reveal_strlit("dependency");
    let tag = "dependency"@;
    assert(is_tag_name(tag));
    lemma_tags(tag);
    lemma_first_after(a, opening(tag), block + closing(tag) + rest);
    lemma_first_after(block, closing(tag), rest);
}

/// A block is left out of a text, with its ends; what stands before it stays.
pub proof fn law_block_is_left_out(
    a: Seq<char>,
    open: Seq<char>,
    inside: Seq<char>,
    close: Seq<char>,
    rest: Seq<char>,
)
    requires
        find(a, open) is None,
        find(inside, close) is None,
        open.len() > 0 && close.len() > 0,
        forall|i: int| 0 < i < open.len() ==> #[trigger] open[i] != open[0],
        forall|i: int| 0 <= i < close.len() - 1 ==> #[trigger] close[i] != close.last(),
    ensures
        without_blocks(a, open, close) == a,
        without_blocks(a + open + (inside + close + rest), open, close) == a + without_blocks(rest, open, close),
{
    lemma_first_after(a, open, inside + close + rest);
    lemma_first_after(inside, close, rest);
}

/// A `pom.xml` without comments and without managed dependencies lists all its dependencies.
pub proof fn law_every_dependency_is_listed(content: Seq<char>)
    requires
        find(content, opening("dependencyManagement"@)) is None,
        find(content, "<!--"@) is None,
    ensures
        pom_entries(content) == dependencies(content),
{
}

/// What stands in a comment is not listed.
pub proof fn law_comment_is_not_listed(a: Seq<char>, comment: Seq<char>, b: Seq<char>)
    requires
        find(a, "<!--"@) is None && find(b, "<!--"@) is None,
        find(comment, "-->"@) is None,
        find(a + "<!--"@ + (comment + "-->"@ + b), opening("dependencyManagement"@)) is None,
    ensures
        pom_entries(a + "<!--"@ + (comment + "-->"@ + b)) == dependencies(a + b),
{
    reveal_strlit("<!--");
    reveal_strlit("-->");
    law_block_is_left_out(a, "<!--"@, comment, "-->"@, b);
}

/// What stands under `<dependencyManagement>` is not listed.
pub proof fn law_managed_dependency_is_not_listed(a: Seq<char>, managed: Seq<char>, b: Seq<char>)
    requires
        find(a, opening("dependencyManagement"@)) is None && find(b, opening("dependencyManagement"@)) is None,
        find(managed, closing("dependencyManagement"@)) is None,
        find(a + b, "<!--"@) is None,
    ensures
        pom_entries(
            a + opening("dependencyManagement"@) + (managed + closing("dependencyManagement"@) + b),
        ) == dependencies(a + b),
{
    reveal_strlit("dependencyManagement");
    let tag = "dependencyManagement"@;
    assert(is_tag_name(tag));
    lemma_tags(tag);
    assert forall|i: int| 0 <= i < closing(tag).len() - 1 implies #[trigger] closing(tag)[i]
        != closing(tag).last() by {
        if i > 1 {
            assert(closing(tag)[i] == tag[i - 2]);
        }
    }
    law_block_is_left_out(a, opening(tag), managed, closing(tag), b);
}

} // verus!
