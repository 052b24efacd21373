//! TOML documents as plain trees.
//!
//! `toml` reads the text; what it read is handed on as a tree of plain values. Only strings,
//! arrays and tables are told apart: nothing in this crate reads more of a document.
use vstd::prelude::*;

use crate::text::same_text;

verus! {

/// What a TOML value says, as far as it is strings, arrays and tables.
pub enum Toml {
    Text(Seq<char>),
    List(Seq<Toml>),
    Table(Seq<(Seq<char>, Toml)>),
    Other,
}

/// A TOML value, as far as it is strings, arrays and tables.
#[derive(Debug)]
pub enum TomlValue {
    Text(String),
    List(Vec<TomlValue>),
    Table(Vec<(String, TomlValue)>),
    Other,
}

impl View for TomlValue {
    type V = Toml;

    open spec fn view(&self) -> Toml
        decreases self,
    {
        match self {
            TomlValue::Text(t) => Toml::Text(t@),
            TomlValue::List(items) => Toml::List(
                Seq::new(
                    items@.len(),
                    |i: int|
                        if 0 <= i < items@.len() {
                            items@[i].view()
                        } else {
                            Toml::Other
                        },
                ),
            ),
            TomlValue::Table(fields) => Toml::Table(
                Seq::new(
                    fields@.len(),
                    |i: int|
                        if 0 <= i < fields@.len() {
                            (fields@[i].0@, fields@[i].1.view())
                        } else {
                            (Seq::empty(), Toml::Other)
                        },
                ),
            ),
            TomlValue::Other => Toml::Other,
        }
    }
}

// ---------------------------------------------------------------------------
// Reading a value
// ---------------------------------------------------------------------------

/// The position of the key `key` among the first `n` pairs.
pub open spec fn toml_index(fields: Seq<(Seq<char>, Toml)>, key: Seq<char>, n: nat) -> Option<int>
    decreases n,
{
    if n == 0 || n > fields.len() {
        None
    } else {
        match toml_index(fields, key, (n - 1) as nat) {
            Some(i) => Some(i),
            None => if fields[n - 1].0 == key {
                Some(n - 1)
            } else {
                None
            },
        }
    }
}

impl Toml {
    /// What stands under `key` in a table; nothing in any other value.
    pub open spec fn field(self, key: Seq<char>) -> Option<Toml> {
        match self {
            Toml::Table(fields) => match toml_index(fields, key, fields.len()) {
                Some(i) => Some(fields[i].1),
                None => None,
            },
            _ => None,
        }
    }

    /// The string under `key`.
    pub open spec fn field_text(self, key: Seq<char>) -> Option<Seq<char>> {
        match self.field(key) {
            Some(Toml::Text(t)) => Some(t),
            _ => None,
        }
    }

    /// The array under `key`.
    pub open spec fn field_items(self, key: Seq<char>) -> Option<Seq<Toml>> {
        match self.field(key) {
            Some(Toml::List(items)) => Some(items),
            _ => None,
        }
    }
}

/// The values of a list of TOML values.
pub open spec fn toml_views(v: Seq<TomlValue>) -> Seq<Toml> {
    Seq::new(v.len(), |i: int| v[i]@)
}

/// The values of a list of pairs.
pub open spec fn toml_pairs(v: Seq<(String, TomlValue)>) -> Seq<(Seq<char>, Toml)> {
    Seq::new(v.len(), |i: int| (v[i].0@, v[i].1@))
}

/// The value of an array is the values of its items, and that of a table the values of its pairs.
pub proof fn lemma_toml_view(v: TomlValue)
    ensures
        match v {
            TomlValue::List(items) => v@ == Toml::List(toml_views(items@)),
            TomlValue::Table(fields) => v@ == Toml::Table(toml_pairs(fields@)),
            _ => true,
        },
{
    reveal_with_fuel(<TomlValue as View>::view, 2);
    match v {
        TomlValue::List(items) => assert(v@->List_0 =~= toml_views(items@)),
        TomlValue::Table(fields) => assert(v@->Table_0 =~= toml_pairs(fields@)),
        _ => {},
    }
}

/// A position that was found stays the one that is found.
proof fn lemma_toml_index_later(fields: Seq<(Seq<char>, Toml)>, key: Seq<char>, n: nat, m: nat)
    requires
        n <= m <= fields.len(),
        toml_index(fields, key, n) is Some,
    ensures
        toml_index(fields, key, m) == toml_index(fields, key, n),
    decreases m,
{
    if n < m {
        lemma_toml_index_later(fields, key, n, (m - 1) as nat);
    }
}

/// The field of a table is the value behind its key, whatever fields stand around it; a value that
/// is no table has none. The accessors give a field that is of their kind, and nothing else.
pub proof fn law_field_is_found_by_its_key(
    before: Seq<(Seq<char>, Toml)>,
    key: Seq<char>,
    value: Toml,
    after: Seq<(Seq<char>, Toml)>,
)
    requires
        forall|i: int| 0 <= i < before.len() ==> (#[trigger] before[i]).0 != key,
    ensures
        ({
            let table = Toml::Table(before + seq![(key, value)] + after);
            &&& table.field(key) == Some(value)
            &&& Toml::Table(before).field(key) is None
            &&& table.field_text(key) == match value {
                Toml::Text(t) => Some(t),
                _ => None,
            }
            &&& table.field_items(key) == match value {
                Toml::List(items) => Some(items),
                _ => None,
            }
        }),
        !(value is Table) ==> value.field(key) is None,
{
    let fields = before + seq![(key, value)] + after;
    lemma_no_toml_index(before, before, key, before.len());
    lemma_no_toml_index(fields, before, key, before.len());
    assert(fields[before.len() as int] == (key, value));
    let n = before.len() + 1;
    assert(toml_index(fields, key, n) == Some(before.len() as int));
    lemma_toml_index_later(fields, key, n, fields.len());
}

/// A key that the first fields do not have is not found among them.
proof fn lemma_no_toml_index(
    fields: Seq<(Seq<char>, Toml)>,
    before: Seq<(Seq<char>, Toml)>,
    key: Seq<char>,
    n: nat,
)
    requires
        n <= before.len() <= fields.len(),
        forall|i: int| 0 <= i < before.len() ==> #[trigger] fields[i] == before[i],
        forall|i: int| 0 <= i < before.len() ==> (#[trigger] before[i]).0 != key,
    ensures
        toml_index(fields, key, n) is None,
    decreases n,
{
    if n > 0 {
        lemma_no_toml_index(fields, before, key, (n - 1) as nat);
        assert(fields[n - 1] == before[n - 1]);
    }
}

impl TomlValue {
    /// What stands under `key` in a table; nothing in any other value.
    pub fn get(&self, key: &str) -> (r: Option<&TomlValue>)
        ensures
            match r {
                Some(v) => self@.field(key@) == Some(v@),
                None => self@.field(key@) is None,
            },
    {
        match self {
            TomlValue::Table(fields) => {
                let ghost all = toml_pairs(fields@);
                proof {
                    lemma_toml_view(*self);
                }
                let mut i: usize = 0;
                while i < fields.len()
                    invariant
                        i <= fields.len(),
                        all == toml_pairs(fields@),
                        self@ == Toml::Table(all),
                        toml_index(all, key@, i as nat) is None,
                    decreases fields.len() - i,
                {
                    if same_text(fields[i].0.as_str(), key) {
                        assert(toml_index(all, key@, (i + 1) as nat) == Some(i as int));
                        proof {
                            lemma_toml_index_later(all, key@, (i + 1) as nat, all.len());
                        }
                        return Some(&fields[i].1);
                    }
                    i += 1;
                }
                None
            },
            _ => None,
        }
    }

    /// The string under `key`.
    pub fn str_at(&self, key: &str) -> (r: Option<&String>)
        ensures
            match r {
                Some(t) => self@.field_text(key@) == Some(t@),
                None => self@.field_text(key@) is None,
            },
    {
        match self.get(key) {
            Some(TomlValue::Text(t)) => Some(t),
            _ => None,
        }
    }

    /// The array under `key`.
    pub fn array_at(&self, key: &str) -> (r: Option<&Vec<TomlValue>>)
        ensures
            match r {
                Some(items) => self@.field_items(key@) == Some(toml_views(items@)),
                None => self@.field_items(key@) is None,
            },
    {
        match self.get(key) {
            Some(v) => {
                proof {
                    lemma_toml_view(*v);
                }
                match v {
                    TomlValue::List(items) => Some(items),
                    _ => None,
                }
            },
            None => None,
        }
    }
}

// ---------------------------------------------------------------------------
// Reading a text
// ---------------------------------------------------------------------------

/// A TOML value of the `toml` crate.
#[verifier::external_type_specification]
#[verifier::external_body]
pub struct ExTomlValue(toml::Value);

/// The error with which the `toml` crate refuses a text.
#[verifier::external_type_specification]
#[verifier::external_body]
pub struct ExTomlError(toml::de::Error);

/// What a `toml::Value` holds, as far as it is strings, arrays and tables.
pub uninterp spec fn toml_tree(v: toml::Value) -> Toml;

/// The document that `toml::from_str` reads in a text, if it reads one.
pub uninterp spec fn toml_document(text: Seq<char>) -> Option<Toml>;

/// The outermost layer of a `toml::Value`.
pub enum TomlLayer<'a> {
    Text(&'a String),
    List(&'a Vec<toml::Value>),
    Table(Vec<(&'a String, &'a toml::Value)>),
    Other,
}

/// Calls `toml::from_str` for a `toml::Value`. The contract names its result: which texts it
/// reads, and what it reads in them, depends on the text alone.
#[verifier::external_body]
fn read_toml(text: &str) -> (r: Result<toml::Value, toml::de::Error>)
    ensures
        match r {
            Ok(v) => toml_document(text@) == Some(toml_tree(v)),
            Err(_) => toml_document(text@) is None,
        },
{
    toml::from_str(text)
}

/// Tells the variants of a `toml::Value` apart. A table is handed on by its pairs in the order
/// of `toml::Table::iter`; no key occurs twice in it.
#[verifier::external_body]
fn toml_layer(v: &toml::Value) -> (r: TomlLayer<'_>)
    ensures
        match r {
            TomlLayer::Text(t) => toml_tree(*v) == Toml::Text(t@),
            TomlLayer::List(items) => toml_tree(*v) == Toml::List(
                Seq::new(items@.len(), |i: int| toml_tree(items@[i])),
            ),
            TomlLayer::Table(fields) => {
                &&& toml_tree(*v) == Toml::Table(
                    Seq::new(fields@.len(), |i: int| (fields@[i].0@, toml_tree(*fields@[i].1))),
                )
                &&& forall|i: int, j: int|
                    0 <= i < j < fields@.len() ==> (#[trigger] fields@[i]).0@ != (#[trigger] fields@[j]).0@
            },
            TomlLayer::Other => toml_tree(*v) == Toml::Other,
        },
{
    match v {
        toml::Value::String(s) => TomlLayer::Text(s),
        toml::Value::Integer(_) => TomlLayer::Other,
        toml::Value::Float(_) => TomlLayer::Other,
        toml::Value::Boolean(_) => TomlLayer::Other,
        toml::Value::Datetime(_) => TomlLayer::Other,
        toml::Value::Array(items) => TomlLayer::List(items),
        toml::Value::Table(fields) => TomlLayer::Table(fields.iter().collect()),
    }
}

/// The plain tree of a `toml::Value`.
fn plain_toml(v: &toml::Value) -> (r: TomlValue)
    ensures
        r@ == toml_tree(*v),
    decreases toml_tree(*v),
{
    match toml_layer(v) {
        TomlLayer::Text(t) => TomlValue::Text(t.clone()),
        TomlLayer::Other => TomlValue::Other,
        TomlLayer::List(items) => {
            let ghost tree = toml_tree(*v)->List_0;
            let mut out: Vec<TomlValue> = Vec::new();
            let mut i: usize = 0;
            while i < items.len()
                invariant
                    i <= items.len(),
                    out@.len() == i,
                    toml_tree(*v) == Toml::List(tree),
                    tree == Seq::new(items@.len(), |k: int| toml_tree(items@[k])),
                    forall|k: int| 0 <= k < i ==> (#[trigger] out@[k])@ == tree[k],
                decreases items.len() - i,
            {
                assert(tree[i as int] == toml_tree(items@[i as int]));
                assert(decreases_to!(toml_tree(*v) => toml_tree(*v)->List_0));
                assert(decreases_to!(tree => tree[i as int]));
                let child: TomlValue = plain_toml(&items[i]);
                out.push(child);
                i += 1;
            }
            let r: TomlValue = TomlValue::List(out);
            proof {
                lemma_toml_view(r);
            }
            assert(r@->List_0 =~= tree);
            r
        },
        TomlLayer::Table(fields) => {
            let ghost tree = toml_tree(*v)->Table_0;
            let mut out: Vec<(String, TomlValue)> = Vec::new();
            let mut i: usize = 0;
            while i < fields.len()
                invariant
                    i <= fields.len(),
                    out@.len() == i,
                    toml_tree(*v) == Toml::Table(tree),
                    tree == Seq::new(fields@.len(), |k: int| (fields@[k].0@, toml_tree(*fields@[k].1))),
                    forall|k: int|
                        0 <= k < i ==> (#[trigger] out@[k]).0@ == tree[k].0 && out@[k].1@ == tree[k].1,
                decreases fields.len() - i,
            {
                assert(tree[i as int] == (fields@[i as int].0@, toml_tree(*fields@[i as int].1)));
                assert(decreases_to!(toml_tree(*v) => toml_tree(*v)->Table_0));
                assert(decreases_to!(tree => tree[i as int]));
                assert(decreases_to!(tree[i as int] => tree[i as int].1));
                let child: TomlValue = plain_toml(fields[i].1);
                out.push((fields[i].0.clone(), child));
                i += 1;
            }
            let r: TomlValue = TomlValue::Table(out);
            proof {
                lemma_toml_view(r);
            }
            assert(r@->Table_0 =~= tree);
            r
        },
    }
}

/// Reads a TOML document.
pub fn parse_toml(text: &str) -> (r: Result<TomlValue, toml::de::Error>)
    ensures
        match r {
            Ok(v) => toml_document(text@) == Some(v@),
            Err(_) => toml_document(text@) is None,
        },
{
    match read_toml(text) {
        Ok(v) => Ok(plain_toml(&v)),
        Err(e) => Err(e),
    }
}

} // verus!
