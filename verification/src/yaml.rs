//! YAML documents as plain trees.
//!
//! `serde_yaml` reads the text; what it read is handed on as a tree of plain values. Only
//! strings, mappings and tags are told apart: nothing in this crate reads more of a document.
use vstd::prelude::*;

use crate::text::same_text;

verus! {

/// What a YAML value says, as far as it is strings and mappings.
pub enum Yaml {
    Text(Seq<char>),
    Record(Seq<(Yaml, Yaml)>),
    Tagged(Box<Yaml>),
    Other,
}

/// A YAML value, as far as it is strings and mappings.
#[derive(Debug)]
pub enum YamlValue {
    Text(String),
    Record(Vec<(YamlValue, YamlValue)>),
    Tagged(Box<YamlValue>),
    Other,
}

impl View for YamlValue {
    type V = Yaml;

    open spec fn view(&self) -> Yaml
        decreases self,
    {
        match self {
            YamlValue::Text(t) => Yaml::Text(t@),
            YamlValue::Record(fields) => Yaml::Record(
                Seq::new(
                    fields@.len(),
                    |i: int|
                        if 0 <= i < fields@.len() {
                            (fields@[i].0.view(), fields@[i].1.view())
                        } else {
                            (Yaml::Other, Yaml::Other)
                        },
                ),
            ),
            YamlValue::Tagged(inner) => Yaml::Tagged(Box::new((**inner).view())),
            YamlValue::Other => Yaml::Other,
        }
    }
}

// ---------------------------------------------------------------------------
// Reading a value
// ---------------------------------------------------------------------------

/// The position of the field with the plain string `key` as its key among the first `n` fields.
pub open spec fn yaml_index(fields: Seq<(Yaml, Yaml)>, key: Seq<char>, n: nat) -> Option<int>
    decreases n,
{
    if n == 0 || n > fields.len() {
        None
    } else {
        match yaml_index(fields, key, (n - 1) as nat) {
            Some(i) => Some(i),
            None => if fields[n - 1].0 == Yaml::Text(key) {
                Some(n - 1)
            } else {
                None
            },
        }
    }
}

impl Yaml {
    /// The value without its tags.
    pub open spec fn untagged(self) -> Yaml
        decreases self,
    {
        match self {
            Yaml::Tagged(inner) => (*inner).untagged(),
            _ => self,
        }
    }

    /// The text that the value is, tagged or not.
    pub open spec fn text(self) -> Option<Seq<char>> {
        match self.untagged() {
            Yaml::Text(t) => Some(t),
            _ => None,
        }
    }

    /// The fields of the mapping that the value is, tagged or not.
    pub open spec fn fields(self) -> Option<Seq<(Yaml, Yaml)>> {
        match self.untagged() {
            Yaml::Record(fields) => Some(fields),
            _ => None,
        }
    }

    /// The field `key` of a mapping; nothing in any other value.
    pub open spec fn field(self, key: Seq<char>) -> Option<Yaml> {
        match self.fields() {
            Some(fields) => match yaml_index(fields, key, fields.len()) {
                Some(i) => Some(fields[i].1),
                None => None,
            },
            None => None,
        }
    }
}

/// The values of a list of fields.
pub open spec fn yaml_views(v: Seq<(YamlValue, YamlValue)>) -> Seq<(Yaml, Yaml)> {
    Seq::new(v.len(), |i: int| (v[i].0@, v[i].1@))
}

/// The value of a mapping is the values of its fields.
pub proof fn lemma_yaml_view(v: YamlValue)
    ensures
        match v {
            YamlValue::Record(fields) => v@ == Yaml::Record(yaml_views(fields@)),
            YamlValue::Tagged(inner) => v@ == Yaml::Tagged(Box::new((*inner)@)),
            _ => true,
        },
{
    reveal_with_fuel(<YamlValue as View>::view, 2);
    match v {
        YamlValue::Record(fields) => assert(v@->Record_0 =~= yaml_views(fields@)),
        _ => {},
    }
}

/// A position that was found stays the one that is found.
proof fn lemma_yaml_index_later(fields: Seq<(Yaml, Yaml)>, key: Seq<char>, n: nat, m: nat)
    requires
        n <= m <= fields.len(),
        yaml_index(fields, key, n) is Some,
    ensures
        yaml_index(fields, key, m) == yaml_index(fields, key, n),
    decreases m,
{
    if n < m {
        lemma_yaml_index_later(fields, key, n, (m - 1) as nat);
    }
}

/// The field of a mapping is the value behind its key, whatever fields stand around it; a value
/// that is no mapping has none. A tag around a value does not change what it is.
pub proof fn law_field_is_found_by_its_key(
    before: Seq<(Yaml, Yaml)>,
    key: Seq<char>,
    value: Yaml,
    after: Seq<(Yaml, Yaml)>,
)
    requires
        forall|i: int| 0 <= i < before.len() ==> (#[trigger] before[i]).0 != Yaml::Text(key),
    ensures
        ({
            let fields = before + seq![(Yaml::Text(key), value)] + after;
            &&& Yaml::Record(fields).field(key) == Some(value)
            &&& Yaml::Tagged(Box::new(Yaml::Record(fields))).field(key) == Some(value)
            &&& Yaml::Record(before).field(key) is None
            &&& Yaml::Text(key).text() == Some(key)
            &&& Yaml::Tagged(Box::new(Yaml::Text(key))).text() == Some(key)
            &&& Yaml::Record(fields).text() is None
            &&& Yaml::Text(key).field(key) is None
            &&& Yaml::Other.field(key) is None && Yaml::Other.text() is None
        }),
{
    let fields = before + seq![(Yaml::Text(key), value)] + after;
    lemma_no_yaml_index(before, before, key, before.len());
    lemma_no_yaml_index(fields, before, key, before.len());
    assert(fields[before.len() as int] == (Yaml::Text(key), value));
    let n = before.len() + 1;
    assert(yaml_index(fields, key, n) == Some(before.len() as int));
    lemma_yaml_index_later(fields, key, n, fields.len());
    reveal_with_fuel(Yaml::untagged, 3);
}

/// A key that the first fields do not have is not found among them.
proof fn lemma_no_yaml_index(fields: Seq<(Yaml, Yaml)>, before: Seq<(Yaml, Yaml)>, key: Seq<char>, n: nat)
    requires
        n <= before.len() <= fields.len(),
        forall|i: int| 0 <= i < before.len() ==> #[trigger] fields[i] == before[i],
        forall|i: int| 0 <= i < before.len() ==> (#[trigger] before[i]).0 != Yaml::Text(key),
    ensures
        yaml_index(fields, key, n) is None,
    decreases n,
{
    if n > 0 {
        lemma_no_yaml_index(fields, before, key, (n - 1) as nat);
        assert(fields[n - 1] == before[n - 1]);
    }
}

impl YamlValue {
    /// The value without its tags.
    fn untag(&self) -> (r: &YamlValue)
        ensures
            r@ == self@.untagged(),
            !(r is Tagged),
        decreases self,
    {
        match self {
            YamlValue::Tagged(inner) => {
                proof {
                    lemma_yaml_view(*self);
                }
                inner.untag()
            },
            _ => self,
        }
    }

    /// The text that the value is, tagged or not.
    pub fn as_str(&self) -> (r: Option<&String>)
        ensures
            match r {
                Some(t) => self@.text() == Some(t@),
                None => self@.text() is None,
            },
    {
        match self.untag() {
            YamlValue::Text(t) => Some(t),
            _ => None,
        }
    }

    /// The fields of the mapping that the value is, tagged or not.
    pub fn as_mapping(&self) -> (r: Option<&Vec<(YamlValue, YamlValue)>>)
        ensures
            match r {
                Some(fields) => self@.fields() == Some(yaml_views(fields@)),
                None => self@.fields() is None,
            },
    {
        let plain: &YamlValue = self.untag();
        proof {
            lemma_yaml_view(*plain);
        }
        match plain {
            YamlValue::Record(fields) => Some(fields),
            _ => None,
        }
    }

    /// The field `key` of a mapping; nothing in any other value.
    pub fn get(&self, key: &str) -> (r: Option<&YamlValue>)
        ensures
            match r {
                Some(v) => self@.field(key@) == Some(v@),
                None => self@.field(key@) is None,
            },
    {
        match self.as_mapping() {
            Some(fields) => {
                let ghost all = yaml_views(fields@);
                let mut i: usize = 0;
                while i < fields.len()
                    invariant
                        i <= fields.len(),
                        all == yaml_views(fields@),
                        self@.fields() == Some(all),
                        yaml_index(all, key@, i as nat) is None,
                    decreases fields.len() - i,
                {
                    let found: bool = match &fields[i].0 {
                        YamlValue::Text(t) => same_text(t.as_str(), key),
                        _ => false,
                    };
                    assert(found == (all[i as int].0 == Yaml::Text(key@)));
                    if found {
                        assert(yaml_index(all, key@, (i + 1) as nat) == Some(i as int));
                        proof {
                            lemma_yaml_index_later(all, key@, (i + 1) as nat, all.len());
                        }
                        return Some(&fields[i].1);
                    }
                    i += 1;
                }
                None
            },
            None => None,
        }
    }
}

// ---------------------------------------------------------------------------
// Reading a text
// ---------------------------------------------------------------------------

/// A YAML value of the `serde_yaml` crate.
#[verifier::external_type_specification]
#[verifier::external_body]
pub struct ExYamlValue(serde_yaml::Value);

/// The error with which the `serde_yaml` crate refuses a text.
#[verifier::external_type_specification]
#[verifier::external_body]
pub struct ExYamlError(serde_yaml::Error);

/// What a `serde_yaml::Value` holds, as far as it is strings and mappings.
pub uninterp spec fn yaml_tree(v: serde_yaml::Value) -> Yaml;

/// The document that `serde_yaml::from_str` reads in a text, if it reads one.
pub uninterp spec fn yaml_document(text: Seq<char>) -> Option<Yaml>;

/// The outermost layer of a `serde_yaml::Value`.
pub enum YamlLayer<'a> {
    Text(&'a String),
    Record(Vec<(&'a serde_yaml::Value, &'a serde_yaml::Value)>),
    Tagged(&'a serde_yaml::Value),
    Other,
}

/// Calls `serde_yaml::from_str` for a `serde_yaml::Value`. The contract names its result: which
/// texts it reads, and what it reads in them, depends on the text alone.
#[verifier::external_body]
fn read_yaml(text: &str) -> (r: Result<serde_yaml::Value, serde_yaml::Error>)
    ensures
        match r {
            Ok(v) => yaml_document(text@) == Some(yaml_tree(v)),
            Err(_) => yaml_document(text@) is None,
        },
{
    serde_yaml::from_str(text)
}

/// Tells the variants of a `serde_yaml::Value` apart. A mapping is handed on by its fields in
/// the order of `serde_yaml::Mapping::iter`; no string occurs in it twice as a key.
#[verifier::external_body]
fn yaml_layer(v: &serde_yaml::Value) -> (r: YamlLayer<'_>)
    ensures
        match r {
            YamlLayer::Text(t) => yaml_tree(*v) == Yaml::Text(t@),
            YamlLayer::Record(fields) => {
                &&& yaml_tree(*v) == Yaml::Record(
                    Seq::new(fields@.len(), |i: int| (yaml_tree(*fields@[i].0), yaml_tree(*fields@[i].1))),
                )
                &&& forall|i: int, j: int|
                    0 <= i < j < fields@.len() && yaml_tree(*(#[trigger] fields@[i]).0) is Text
                        ==> yaml_tree(*fields@[i].0) != yaml_tree(*(#[trigger] fields@[j]).0)
            },
            YamlLayer::Tagged(inner) => yaml_tree(*v) == Yaml::Tagged(Box::new(yaml_tree(*inner))),
            YamlLayer::Other => yaml_tree(*v) == Yaml::Other,
        },
{
    match v {
        serde_yaml::Value::Null => YamlLayer::Other,
        serde_yaml::Value::Bool(_) => YamlLayer::Other,
        serde_yaml::Value::Number(_) => YamlLayer::Other,
        serde_yaml::Value::String(s) => YamlLayer::Text(s),
        serde_yaml::Value::Sequence(_) => YamlLayer::Other,
        serde_yaml::Value::Mapping(fields) => YamlLayer::Record(fields.iter().collect()),
        serde_yaml::Value::Tagged(tagged) => YamlLayer::Tagged(&tagged.value),
    }
}

/// The plain tree of a `serde_yaml::Value`.
fn plain_yaml(v: &serde_yaml::Value) -> (r: YamlValue)
    ensures
        r@ == yaml_tree(*v),
    decreases yaml_tree(*v),
{
    match yaml_layer(v) {
        YamlLayer::Text(t) => YamlValue::Text(t.clone()),
        YamlLayer::Other => YamlValue::Other,
        YamlLayer::Tagged(inner) => {
            assert(decreases_to!(yaml_tree(*v) => yaml_tree(*v)->Tagged_0));
            let r: YamlValue = YamlValue::Tagged(Box::new(plain_yaml(inner)));
            proof {
                lemma_yaml_view(r);
            }
            r
        },
        YamlLayer::Record(fields) => {
            let ghost tree = yaml_tree(*v)->Record_0;
            let mut out: Vec<(YamlValue, YamlValue)> = Vec::new();
            let mut i: usize = 0;
            while i < fields.len()
                invariant
                    i <= fields.len(),
                    out@.len() == i,
                    yaml_tree(*v) == Yaml::Record(tree),
                    tree == Seq::new(
                        fields@.len(),
                        |k: int| (yaml_tree(*fields@[k].0), yaml_tree(*fields@[k].1)),
                    ),
                    forall|k: int|
                        0 <= k < i ==> (#[trigger] out@[k]).0@ == tree[k].0 && out@[k].1@ == tree[k].1,
                decreases fields.len() - i,
            {
                assert(tree[i as int] == (yaml_tree(*fields@[i as int].0), yaml_tree(*fields@[i as int].1)));
                assert(decreases_to!(yaml_tree(*v) => yaml_tree(*v)->Record_0));
                assert(decreases_to!(tree => tree[i as int]));
                assert(decreases_to!(tree[i as int] => tree[i as int].0));
                assert(decreases_to!(tree[i as int] => tree[i as int].1));
                let key: YamlValue = plain_yaml(fields[i].0);
                let child: YamlValue = plain_yaml(fields[i].1);
                out.push((key, child));
                i += 1;
            }
            let r: YamlValue = YamlValue::Record(out);
            proof {
                lemma_yaml_view(r);
            }
            assert(r@->Record_0 =~= tree);
            r
        },
    }
}

/// Reads a YAML document.
pub fn parse_yaml(text: &str) -> (r: Result<YamlValue, serde_yaml::Error>)
    ensures
        match r {
            Ok(v) => yaml_document(text@) == Some(v@),
            Err(_) => yaml_document(text@) is None,
        },
{
    match read_yaml(text) {
        Ok(v) => Ok(plain_yaml(&v)),
        Err(e) => Err(e),
    }
}

} // verus!
