//! What a `packages.config` lists: tag by tag, attribute by attribute.
use vstd::prelude::*;

use crate::entry::{Ecosystem, Entry};
use crate::lockfile::nuget::{
    assigned, attribute, config_package, config_packages, is_quoted, packages_config_entries,
};
use crate::lockfile::pom_laws::law_block_is_left_out;
use crate::text::{find, find_char, is_space, trim_start};
use crate::text_laws::{all_space, lacks, lemma_first_after, lemma_first_char, lemma_trim_start_pads};

verus! {

/// Tags are read one by one: each `<package>` tag gives what its attributes give, whatever stands
/// between the tags. A longer tag name, such as that of the root element, gives nothing.
pub proof fn law_package_tags_are_read_one_by_one(a: Seq<char>, attributes: Seq<char>, rest: Seq<char>)
    requires
        find(a, "<package"@) is None,
        lacks(attributes, '>'),
    ensures
        config_packages(a) == Seq::<Entry>::empty(),
        config_packages(a + "<package"@ + (attributes + seq!['>'] + rest)) == if attributes.len() > 0 && is_space(
            attributes[0],
        ) && config_package(attributes) is Some {
            seq![config_package(attributes)->Some_0] + config_packages(rest)
        } else {
            config_packages(rest)
        },
{
    reveal_strlit("<package");
    let p = "<package"@;
    assert(forall|i: int| 0 < i < p.len() ==> #[trigger] p[i] != p[0]);
    let after = attributes + seq!['>'] + rest;
    lemma_first_after(a, p, after);
    lemma_first_char(attributes, '>', rest);
    if attributes.len() == 0 {
        assert(after[0] == '>');
    } else {
        assert(after[0] == attributes[0]);
    }
}

/// A tag gives a package if and only if it has an id and a version, and these are its.
pub proof fn law_tag_is_told_by_id_and_version(attributes: Seq<char>, id: Seq<char>, version: Seq<char>)
    ensures
        config_package(attributes) == Some(Entry { ecosystem: Ecosystem::Nuget, name: id, version }) <==> attribute(
            attributes,
            "id"@,
        ) == Some(id) && attribute(attributes, "version"@) == Some(version),
{
}

/// The attribute begins at position `j` of `s`: behind white space stands its name.
pub open spec fn names_at(s: Seq<char>, name: Seq<char>, j: int) -> bool {
    0 <= j < s.len() && is_space(s[j]) && name.is_prefix_of(s.skip(j + 1))
}

/// What stands before the first attribute with the name is passed over.
proof fn lemma_passed(s: Seq<char>, name: Seq<char>, n: int)
    requires
        0 <= n <= s.len(),
        forall|j: int| 0 <= j < n ==> !names_at(s, name, j),
    ensures
        attribute(s, name) == attribute(s.skip(n), name),
    decreases n,
{
    if n == 0 {
        assert(s.skip(0) =~= s);
    } else {
        let t = s.skip(1);
        assert(!names_at(s, name, 0));
        assert forall|j: int| 0 <= j < n - 1 implies !names_at(t, name, j) by {
            assert(t.skip(j + 1) =~= s.skip(j + 2));
            assert(!names_at(s, name, j + 1));
        }
        lemma_passed(t, name, n - 1);
        assert(t.skip(n - 1) =~= s.skip(n));
    }
}

/// The value of an attribute is what stands between its quotes, single or double, with white space
/// allowed around the equals sign, and whatever other attributes stand before it and behind it.
pub proof fn law_attribute_gives_its_value(
    before: Seq<char>,
    space: char,
    name: Seq<char>,
    a: Seq<char>,
    b: Seq<char>,
    quote: char,
    value: Seq<char>,
    after: Seq<char>,
)
    requires
        is_space(space),
        name.len() > 0,
        all_space(a) && all_space(b),
        quote == '"' || quote == '\'',
        lacks(value, quote),
        forall|j: int|
            0 <= j < before.len() ==> !names_at(
                before + seq![space] + (name + (a + seq!['='] + (b + seq![quote] + (value + seq![quote] + after)))),
                name,
                j,
            ),
    ensures
        attribute(
            before + seq![space] + (name + (a + seq!['='] + (b + seq![quote] + (value + seq![quote] + after)))),
            name,
        ) == Some(value),
{
    let text = value + seq![quote] + after;
    let behind = a + seq!['='] + (b + seq![quote] + text);
    let s = before + seq![space] + (name + behind);
    lemma_passed(s, name, before.len() as int);
    let at = s.skip(before.len() as int);
    assert(at =~= seq![space] + (name + behind));
    lemma_value(a, b, quote, text);
    lemma_attribute_here(space, name, behind, quote, text);
    lemma_first_char(value, quote, after);
}

/// What stands behind an equals sign, without the white space around it.
proof fn lemma_value(a: Seq<char>, b: Seq<char>, quote: char, text: Seq<char>)
    requires
        all_space(a) && all_space(b),
        quote == '"' || quote == '\'',
    ensures
        assigned(a + seq!['='] + (b + seq![quote] + text)) == Some(seq![quote] + text),
{
    let quoted = seq![quote] + text;
    let right = b + seq![quote] + text;
    let sign = seq!['='] + right;
    assert(a + seq!['='] + right =~= a + sign);
    lemma_trim_start_pads(a, sign);
    assert(sign[0] == '=');
    assert(trim_start(sign) == sign);
    assert(sign.skip(1) =~= right);
    assert(right =~= b + quoted);
    lemma_trim_start_pads(b, quoted);
    assert(quoted[0] == quote);
    assert(trim_start(quoted) == quoted);
}

/// The attribute at the front is read.
proof fn lemma_attribute_here(space: char, name: Seq<char>, behind: Seq<char>, quote: char, text: Seq<char>)
    requires
        is_space(space),
        quote == '"' || quote == '\'',
        assigned(behind) == Some(seq![quote] + text),
    ensures
        attribute(seq![space] + (name + behind), name) == match find_char(text, quote) {
            Some(i) => Some(text.take(i)),
            None => None,
        },
{
    let at = seq![space] + (name + behind);
    let quoted = seq![quote] + text;
    assert(at[0] == space);
    assert(at.skip(1) =~= name + behind);
    assert((name + behind).take(name.len() as int) =~= name);
    assert(name.is_prefix_of(at.skip(1)));
    assert(at.skip(1).skip(name.len() as int) =~= behind);
    assert(quoted[0] == quote);
    assert(is_quoted(quoted));
    assert(quoted.skip(1) =~= text);
}

/// An attribute whose name goes on is another one, and a tag without the name has no value.
pub proof fn law_other_attributes_do_not_count(space: char, name: Seq<char>, more: char, rest: Seq<char>)
    requires
        is_space(space),
        !is_space(more) && more != '=',
    ensures
        attribute(seq![space] + (name + (seq![more] + rest)), name) == attribute(name + (seq![more] + rest), name),
        (forall|j: int| 0 <= j < rest.len() ==> !names_at(rest, name, j)) ==> attribute(rest, name) is None,
{
    let tail = seq![more] + rest;
    let t = name + tail;
    let s = seq![space] + t;
    assert(s.skip(1) =~= t);
    assert(t.skip(name.len() as int) =~= tail);
    assert(tail[0] == more);
    assert(trim_start(tail) == tail);
    assert(assigned(tail) is None);
    if forall|j: int| 0 <= j < rest.len() ==> !names_at(rest, name, j) {
        lemma_passed(rest, name, rest.len() as int);
        assert(rest.skip(rest.len() as int).len() == 0);
    }
}

/// A file without comments lists all its tags, and what stands in a comment is not listed.
pub proof fn law_commented_tag_is_not_listed(a: Seq<char>, comment: Seq<char>, b: Seq<char>)
    requires
        find(a, "<!--"@) is None && find(b, "<!--"@) is None,
        find(comment, "-->"@) is None,
    ensures
        packages_config_entries(a) == config_packages(a),
        packages_config_entries(a + "<!--"@ + (comment + "-->"@ + b)) == config_packages(a + b),
{
    reveal_strlit("<!--");
    reveal_strlit("-->");
    law_block_is_left_out(a, "<!--"@, comment, "-->"@, b);
}

} // verus!
