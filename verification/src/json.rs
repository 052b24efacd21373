//! JSON documents as plain trees.
//!
//! `serde_json` reads the text; what it read is handed on as a tree of plain values, on which
//! the parsers and the reports work.
use vstd::prelude::*;

use crate::text::{
    decimal, lemma_text_irreflexive, lemma_text_transitive, place_of_text, same_text, text_before, Place,
};

verus! {

/// What a JSON value says.
pub enum Json {
    Null,
    Bool(bool),
    /// A number: its value where it is a natural number that fits 64 bits, and its notation.
    Number(Option<u64>, Seq<char>),
    Text(Seq<char>),
    List(Seq<Json>),
    Record(Seq<(Seq<char>, Json)>),
}

/// A JSON value.
#[derive(Debug)]
pub enum JsonValue {
    Null,
    Bool(bool),
    Number(serde_json::Number),
    Text(String),
    List(Vec<JsonValue>),
    Record(JsonRecord),
}

/// The fields of a JSON record: no key occurs twice, and they stand in the order of their keys.
#[derive(Debug)]
pub struct JsonRecord {
    fields: Vec<(String, JsonValue)>,
}

impl JsonRecord {
    /// The fields.
    pub closed spec fn list(self) -> Seq<(String, JsonValue)> {
        self.fields@
    }

    /// The keys stand in order.
    #[verifier::type_invariant]
    spec fn well_formed(self) -> bool {
        ordered(field_keys(self.fields@))
    }
}

/// The keys of a list of fields.
pub open spec fn field_keys(v: Seq<(String, JsonValue)>) -> Seq<Seq<char>> {
    Seq::new(v.len(), |i: int| v[i].0@)
}

/// Each key stands before every later one.
pub open spec fn ordered(keys: Seq<Seq<char>>) -> bool {
    forall|i: int, j: int| 0 <= i < j < keys.len() ==> text_before(#[trigger] keys[i], #[trigger] keys[j])
}

impl View for JsonValue {
    type V = Json;

    open spec fn view(&self) -> Json
        decreases self,
    {
        match self {
            JsonValue::Null => Json::Null,
            JsonValue::Bool(b) => Json::Bool(*b),
            JsonValue::Number(n) => Json::Number(number_natural(*n), number_text(*n)),
            JsonValue::Text(t) => Json::Text(t@),
            JsonValue::List(items) => Json::List(
                Seq::new(
                    items@.len(),
                    |i: int|
                        if 0 <= i < items@.len() {
                            items@[i].view()
                        } else {
                            Json::Null
                        },
                ),
            ),
            JsonValue::Record(record) => Json::Record(
                Seq::new(
                    record.list().len(),
                    |i: int|
                        if 0 <= i < record.list().len() {
                            (record.list()[i].0@, record.list()[i].1.view())
                        } else {
                            (Seq::empty(), Json::Null)
                        },
                ),
            ),
        }
    }
}

// ---------------------------------------------------------------------------
// Reading a value
// ---------------------------------------------------------------------------

/// The position of the field `key` among the first `n` fields.
pub open spec fn field_index(fields: Seq<(Seq<char>, Json)>, key: Seq<char>, n: nat) -> Option<int>
    decreases n,
{
    if n == 0 || n > fields.len() {
        None
    } else {
        match field_index(fields, key, (n - 1) as nat) {
            Some(i) => Some(i),
            None => if fields[n - 1].0 == key {
                Some(n - 1)
            } else {
                None
            },
        }
    }
}

impl Json {
    /// The field `key` of a record; nothing in any other value.
    pub open spec fn field(self, key: Seq<char>) -> Option<Json> {
        match self {
            Json::Record(fields) => match field_index(fields, key, fields.len()) {
                Some(i) => Some(fields[i].1),
                None => None,
            },
            _ => None,
        }
    }

    /// The text that the value is.
    pub open spec fn text(self) -> Option<Seq<char>> {
        match self {
            Json::Text(t) => Some(t),
            _ => None,
        }
    }

    /// The natural number that the value is.
    pub open spec fn natural(self) -> Option<u64> {
        match self {
            Json::Number(n, _) => n,
            _ => None,
        }
    }

    /// The items of the list that the value is.
    pub open spec fn items(self) -> Option<Seq<Json>> {
        match self {
            Json::List(items) => Some(items),
            _ => None,
        }
    }

    /// The fields of the record that the value is.
    pub open spec fn fields(self) -> Option<Seq<(Seq<char>, Json)>> {
        match self {
            Json::Record(fields) => Some(fields),
            _ => None,
        }
    }

    /// The text of the field `key`.
    pub open spec fn field_text(self, key: Seq<char>) -> Option<Seq<char>> {
        match self.field(key) {
            Some(v) => v.text(),
            None => None,
        }
    }

    /// The natural number in the field `key`.
    pub open spec fn field_natural(self, key: Seq<char>) -> Option<u64> {
        match self.field(key) {
            Some(v) => v.natural(),
            None => None,
        }
    }

    /// The list in the field `key`.
    pub open spec fn field_items(self, key: Seq<char>) -> Option<Seq<Json>> {
        match self.field(key) {
            Some(v) => v.items(),
            None => None,
        }
    }

    /// The record in the field `key`.
    pub open spec fn field_fields(self, key: Seq<char>) -> Option<Seq<(Seq<char>, Json)>> {
        match self.field(key) {
            Some(v) => v.fields(),
            None => None,
        }
    }
}

/// The values of a list of JSON values.
pub open spec fn json_views(v: Seq<JsonValue>) -> Seq<Json> {
    Seq::new(v.len(), |i: int| v[i]@)
}

/// The values of a list of fields.
pub open spec fn field_views(v: Seq<(String, JsonValue)>) -> Seq<(Seq<char>, Json)> {
    Seq::new(v.len(), |i: int| (v[i].0@, v[i].1@))
}

/// The value of a list is the values of its items, and that of a record the values of its fields.
pub proof fn lemma_json_view(v: JsonValue)
    ensures
        match v {
            JsonValue::List(items) => v@ == Json::List(json_views(items@)),
            JsonValue::Record(record) => v@ == Json::Record(field_views(record.list())),
            _ => true,
        },
{
    reveal_with_fuel(<JsonValue as View>::view, 2);
    match v {
        JsonValue::List(items) => assert(v@->List_0 =~= json_views(items@)),
        JsonValue::Record(record) => assert(v@->Record_0 =~= field_views(record.list())),
        _ => {},
    }
}

/// `field_index` gives a position within the range, with the key there.
pub proof fn lemma_field_index(fields: Seq<(Seq<char>, Json)>, key: Seq<char>, n: nat)
    requires
        n <= fields.len(),
    ensures
        match field_index(fields, key, n) {
            Some(i) => 0 <= i < n && fields[i].0 == key,
            None => forall|i: int| 0 <= i < n ==> fields[i].0 != key,
        },
    decreases n,
{
    if n > 0 {
        lemma_field_index(fields, key, (n - 1) as nat);
    }
}

/// The field of a record is the value behind its key, whatever fields stand around it; a value
/// that is no record has none. The accessors give a field that is of their kind, and nothing else.
pub proof fn law_field_is_found_by_its_key(
    before: Seq<(Seq<char>, Json)>,
    key: Seq<char>,
    value: Json,
    after: Seq<(Seq<char>, Json)>,
)
    requires
        forall|i: int| 0 <= i < before.len() ==> (#[trigger] before[i]).0 != key,
    ensures
        ({
            let record = Json::Record(before + seq![(key, value)] + after);
            &&& record.field(key) == Some(value)
            &&& Json::Record(before).field(key) is None
            &&& record.field_text(key) == match value {
                Json::Text(t) => Some(t),
                _ => None,
            }
            &&& record.field_natural(key) == match value {
                Json::Number(n, _) => n,
                _ => None,
            }
            &&& record.field_items(key) == match value {
                Json::List(items) => Some(items),
                _ => None,
            }
            &&& record.field_fields(key) == match value {
                Json::Record(fields) => Some(fields),
                _ => None,
            }
        }),
        !(value is Record) ==> value.field(key) is None,
{
    let fields = before + seq![(key, value)] + after;
    lemma_field_index(before, key, before.len());
    if field_index(before, key, before.len()) is Some {
        let i = field_index(before, key, before.len()).unwrap();
        assert(before[i].0 != key);
    }
    let n = before.len() + 1;
    lemma_field_index(fields, key, before.len());
    if field_index(fields, key, before.len()) is Some {
        let i = field_index(fields, key, before.len()).unwrap();
        assert(fields[i] == before[i]);
    }
    assert(fields[before.len() as int] == (key, value));
    assert(field_index(fields, key, n) == Some(before.len() as int));
    lemma_field_index_later(fields, key, n, fields.len());
}

impl JsonValue {
    /// The field `key` of a record; nothing in any other value.
    pub fn get(&self, key: &str) -> (r: Option<&JsonValue>)
        ensures
            match r {
                Some(v) => self@.field(key@) == Some(v@),
                None => self@.field(key@) is None,
            },
    {
        match self {
            JsonValue::Record(record) => {
                let fields: &Vec<(String, JsonValue)> = &record.fields;
                let ghost all = field_views(fields@);
                proof {
                    lemma_json_view(*self);
                }
                let mut i: usize = 0;
                while i < fields.len()
                    invariant
                        i <= fields.len(),
                        all == field_views(fields@),
                        self@ == Json::Record(all),
                        field_index(all, key@, i as nat) is None,
                    decreases fields.len() - i,
                {
                    if same_text(fields[i].0.as_str(), key) {
                        assert(field_index(all, key@, (i + 1) as nat) == Some(i as int));
                        proof {
                            lemma_field_index_later(all, key@, (i + 1) as nat, all.len());
                        }
                        return Some(&fields[i].1);
                    }
                    i += 1;
                }
                None
            },
            _ => None,
        }
    }

    /// The text that the value is.
    pub fn as_str(&self) -> (r: Option<&String>)
        ensures
            match r {
                Some(t) => self@.text() == Some(t@),
                None => self@.text() is None,
            },
    {
        match self {
            JsonValue::Text(t) => Some(t),
            _ => None,
        }
    }

    /// The natural number that the value is.
    pub fn as_u64(&self) -> (r: Option<u64>)
        ensures
            r == self@.natural(),
    {
        match self {
            JsonValue::Number(n) => n.as_u64(),
            _ => None,
        }
    }

    /// The items of the list that the value is.
    pub fn as_array(&self) -> (r: Option<&Vec<JsonValue>>)
        ensures
            match r {
                Some(items) => self@.items() == Some(json_views(items@)),
                None => self@.items() is None,
            },
    {
        match self {
            JsonValue::List(items) => {
                proof {
                    lemma_json_view(*self);
                }
                Some(items)
            },
            _ => None,
        }
    }

    /// The fields of the record that the value is.
    pub fn as_object(&self) -> (r: Option<&Vec<(String, JsonValue)>>)
        ensures
            match r {
                Some(fields) => self@.fields() == Some(field_views(fields@)),
                None => self@.fields() is None,
            },
    {
        match self {
            JsonValue::Record(record) => {
                proof {
                    lemma_json_view(*self);
                }
                Some(&record.fields)
            },
            _ => None,
        }
    }

    /// The text of the field `key`.
    pub fn str_at(&self, key: &str) -> (r: Option<&String>)
        ensures
            match r {
                Some(t) => self@.field_text(key@) == Some(t@),
                None => self@.field_text(key@) is None,
            },
    {
        match self.get(key) {
            Some(v) => v.as_str(),
            None => None,
        }
    }

    /// The natural number in the field `key`.
    pub fn u64_at(&self, key: &str) -> (r: Option<u64>)
        ensures
            r == self@.field_natural(key@),
    {
        match self.get(key) {
            Some(v) => v.as_u64(),
            None => None,
        }
    }

    /// The list in the field `key`.
    pub fn array_at(&self, key: &str) -> (r: Option<&Vec<JsonValue>>)
        ensures
            match r {
                Some(items) => self@.field_items(key@) == Some(json_views(items@)),
                None => self@.field_items(key@) is None,
            },
    {
        match self.get(key) {
            Some(v) => v.as_array(),
            None => None,
        }
    }

    /// The record in the field `key`.
    pub fn object_at(&self, key: &str) -> (r: Option<&Vec<(String, JsonValue)>>)
        ensures
            match r {
                Some(fields) => self@.field_fields(key@) == Some(field_views(fields@)),
                None => self@.field_fields(key@) is None,
            },
    {
        match self.get(key) {
            Some(v) => v.as_object(),
            None => None,
        }
    }
}

/// A position that was found stays the one that is found.
proof fn lemma_field_index_later(fields: Seq<(Seq<char>, Json)>, key: Seq<char>, n: nat, m: nat)
    requires
        n <= m <= fields.len(),
        field_index(fields, key, n) is Some,
    ensures
        field_index(fields, key, m) == field_index(fields, key, n),
    decreases m,
{
    if n < m {
        lemma_field_index_later(fields, key, n, (m - 1) as nat);
    }
}

// ---------------------------------------------------------------------------
// Making a value
// ---------------------------------------------------------------------------

/// The fields with `key` set to `value`, in the order of the keys.
pub open spec fn with_field(fields: Seq<(Seq<char>, Json)>, key: Seq<char>, value: Json) -> Seq<
    (Seq<char>, Json),
>
    decreases fields.len(),
{
    if fields.len() == 0 {
        seq![(key, value)]
    } else if fields[0].0 == key {
        seq![(key, value)] + fields.drop_first()
    } else if text_before(key, fields[0].0) {
        seq![(key, value)] + fields
    } else {
        seq![fields[0]] + with_field(fields.drop_first(), key, value)
    }
}

/// What was written to a field is read from it, and every other field stays as it was.
pub proof fn law_field_written_is_read(
    fields: Seq<(Seq<char>, Json)>,
    key: Seq<char>,
    value: Json,
    other: Seq<char>,
)
    ensures
        Json::Record(with_field(fields, key, value)).field(key) == Some(value),
        other != key ==> Json::Record(with_field(fields, key, value)).field(other) == Json::Record(
            fields,
        ).field(other),
    decreases fields.len(),
{
    let after = with_field(fields, key, value);
    lemma_field_of_first(after, key);
    lemma_field_of_first(after, other);
    if fields.len() > 0 {
        lemma_field_of_first(fields, other);
        let rest = fields.drop_first();
        if fields[0].0 == key {
            assert(after.drop_first() =~= rest);
        } else if text_before(key, fields[0].0) {
            assert(after.drop_first() =~= fields);
        } else {
            assert(after.drop_first() =~= with_field(rest, key, value));
            law_field_written_is_read(rest, key, value, other);
        }
    }
}

/// A field is the first one where its key stands there, and one of the rest otherwise.
proof fn lemma_field_of_first(fields: Seq<(Seq<char>, Json)>, key: Seq<char>)
    ensures
        Json::Record(fields).field(key) == if fields.len() == 0 {
            None::<Json>
        } else if fields[0].0 == key {
            Some(fields[0].1)
        } else {
            Json::Record(fields.drop_first()).field(key)
        },
{
    lemma_field_index(fields, key, fields.len());
    if fields.len() > 0 {
        let rest = fields.drop_first();
        lemma_field_index(rest, key, rest.len());
        if fields[0].0 == key {
            assert(field_index(fields, key, 0) is None);
            assert(field_index(fields, key, 1) == Some(0int));
            lemma_field_index_later(fields, key, 1, fields.len());
        } else {
            lemma_field_index_shift(fields, key, fields.len());
        }
    }
}

/// Without the first field, which has another key, every position is one less.
proof fn lemma_field_index_shift(fields: Seq<(Seq<char>, Json)>, key: Seq<char>, n: nat)
    requires
        1 <= n <= fields.len(),
        fields[0].0 != key,
    ensures
        field_index(fields, key, n) == match field_index(fields.drop_first(), key, (n - 1) as nat) {
            Some(i) => Some(i + 1),
            None => None::<int>,
        },
    decreases n,
{
    if n > 1 {
        lemma_field_index_shift(fields, key, (n - 1) as nat);
        assert(fields.drop_first()[n - 2] == fields[n - 1]);
    } else {
        assert(field_index(fields, key, 0) is None);
        assert(field_index(fields.drop_first(), key, 0) is None);
    }
}

/// A field whose key stands after all others comes last.
proof fn lemma_with_last(fields: Seq<(Seq<char>, Json)>, key: Seq<char>, value: Json)
    requires
        forall|i: int| 0 <= i < fields.len() ==> text_before((#[trigger] fields[i]).0, key),
    ensures
        with_field(fields, key, value) == fields.push((key, value)),
    decreases fields.len(),
{
    if fields.len() == 0 {
        assert(fields.push((key, value)) =~= seq![(key, value)]);
    } else {
        let rest = fields.drop_first();
        assert(text_before(fields[0].0, key));
        lemma_text_irreflexive(key);
        if text_before(key, fields[0].0) {
            lemma_text_transitive(key, fields[0].0, key);
        }
        assert forall|i: int| 0 <= i < rest.len() implies text_before((#[trigger] rest[i]).0, key) by {
            assert(rest[i] == fields[i + 1]);
        }
        lemma_with_last(rest, key, value);
        assert(seq![fields[0]] + rest.push((key, value)) =~= fields.push((key, value)));
    }
}

impl JsonRecord {
    /// The record without fields.
    pub fn new() -> (r: JsonRecord)
        ensures
            field_views(r.list()) == Seq::<(Seq<char>, Json)>::empty(),
    {
        let r: JsonRecord = JsonRecord { fields: Vec::new() };
        assert(field_views(r.list()) =~= Seq::empty());
        r
    }

    /// The record with the field `key` set to `value`.
    pub fn with(self, key: String, value: JsonValue) -> (r: JsonRecord)
        ensures
            field_views(r.list()) == with_field(field_views(self.list()), key@, value@),
    {
        proof {
            use_type_invariant(&self);
        }
        let mut fields: Vec<(String, JsonValue)> = self.fields;
        let ghost list = fields@;
        let ghost all = field_views(list);
        let ghost keys = field_keys(list);
        let mut i: usize = 0;
        assert(all.take(0) + with_field(all.skip(0), key@, value@) =~= with_field(all, key@, value@)) by {
            assert(all.skip(0) =~= all);
        }
        while i < fields.len()
            invariant
                i <= fields.len(),
                fields@ == list,
                list == self.list(),
                all == field_views(list),
                keys == field_keys(list),
                ordered(keys),
                with_field(all, key@, value@) == all.take(i as int) + with_field(
                    all.skip(i as int),
                    key@,
                    value@,
                ),
                forall|k: int| 0 <= k < i ==> text_before(#[trigger] keys[k], key@),
            decreases fields.len() - i,
        {
            let ghost rest = all.skip(i as int);
            assert(keys[i as int] == fields@[i as int].0@);
            assert(rest[0] == all[i as int]);
            match place_of_text(fields[i].0.as_str(), key.as_str()) {
                Place::Before => {
                    proof {
                        lemma_text_irreflexive(key@);
                        if text_before(key@, keys[i as int]) {
                            lemma_text_transitive(key@, keys[i as int], key@);
                        }
                        assert(rest.drop_first() =~= all.skip(i + 1));
                        assert(all.take(i as int) + (seq![rest[0]] + with_field(rest.drop_first(), key@, value@))
                            =~= all.take(i + 1) + with_field(all.skip(i + 1), key@, value@));
                    }
                    i += 1;
                },
                Place::Same => {
                    let ghost entry = (key@, value@);
                    fields.set(i, (key, value));
                    assert(field_views(fields@) =~= all.take(i as int) + (seq![entry] + rest.drop_first()));
                    assert(field_keys(fields@) =~= keys);
                    return JsonRecord { fields };
                },
                Place::After => {
                    let ghost entry = (key@, value@);
                    proof {
                        lemma_text_irreflexive(key@);
                        assert forall|k: int| i <= k < keys.len() implies text_before(
                            key@,
                            #[trigger] keys[k],
                        ) by {
                            if i < k {
                                lemma_text_transitive(key@, keys[i as int], keys[k]);
                            }
                        }
                    }
                    fields.insert(i, (key, value));
                    assert(field_views(fields@) =~= all.take(i as int) + (seq![entry] + rest));
                    assert(field_keys(fields@) =~= keys.insert(i as int, entry.0));
                    return JsonRecord { fields };
                },
            }
        }
        let ghost entry = (key@, value@);
        fields.push((key, value));
        assert(all.skip(i as int) =~= Seq::empty());
        assert(field_views(fields@) =~= all.take(i as int) + seq![entry]);
        assert(field_keys(fields@) =~= keys.push(entry.0));
        JsonRecord { fields }
    }
}

impl JsonRecord {
    /// The record with one field more, whose key stands after all others.
    pub fn followed_by(self, key: &str, value: JsonValue) -> (r: JsonRecord)
        requires
            forall|i: int|
                0 <= i < field_views(self.list()).len() ==> text_before(
                    (#[trigger] field_views(self.list())[i]).0,
                    key@,
                ),
        ensures
            field_views(r.list()) == field_views(self.list()).push((key@, value@)),
    {
        proof {
            lemma_with_last(field_views(self.list()), key@, value@);
        }
        self.with(key.to_owned(), value)
    }
}

impl JsonValue {
    /// The number `n`.
    pub fn natural(n: u64) -> (r: JsonValue)
        ensures
            r@ == Json::Number(Some(n), decimal(n as nat)),
    {
        JsonValue::Number(natural_number(n))
    }

    /// The record with the fields `record`.
    pub fn record(record: JsonRecord) -> (r: JsonValue)
        ensures
            r@ == Json::Record(field_views(record.list())),
    {
        let r: JsonValue = JsonValue::Record(record);
        proof {
            lemma_json_view(r);
        }
        r
    }

    /// The list with the items `items`.
    pub fn list(items: Vec<JsonValue>) -> (r: JsonValue)
        ensures
            r@ == Json::List(json_views(items@)),
    {
        let r: JsonValue = JsonValue::List(items);
        proof {
            lemma_json_view(r);
        }
        r
    }
}

// ---------------------------------------------------------------------------
// Reading a text
// ---------------------------------------------------------------------------

/// A JSON value of the `serde_json` crate.
#[verifier::external_type_specification]
#[verifier::external_body]
pub struct ExJsonValue(serde_json::Value);

/// A number of the `serde_json` crate.
#[verifier::external_type_specification]
#[verifier::external_body]
pub struct ExJsonNumber(serde_json::Number);

/// The error with which the `serde_json` crate refuses a text.
#[verifier::external_type_specification]
#[verifier::external_body]
pub struct ExJsonError(serde_json::Error);

/// What a `serde_json::Value` holds.
pub uninterp spec fn json_tree(v: serde_json::Value) -> Json;

/// The document that `serde_json::from_str` reads in a text, if it reads one.
pub uninterp spec fn json_document(text: Seq<char>) -> Option<Json>;

/// The value of a number where it is a natural number that fits 64 bits, by
/// `serde_json::Number::as_u64`.
pub uninterp spec fn number_natural(n: serde_json::Number) -> Option<u64>;

/// The notation of a `serde_json::Number`, as its `Display` writes it.
pub uninterp spec fn number_text(n: serde_json::Number) -> Seq<char>;

/// `serde_json::Number::as_u64` gives the value of a number that is natural and fits 64 bits.
/// The contract names it.
pub assume_specification[ serde_json::Number::as_u64 ](n: &serde_json::Number) -> (r: Option<u64>)
    ensures
        r == number_natural(*n),
;

/// The clone of a `serde_json::Number` is the same number.
pub assume_specification[ <serde_json::Number as Clone>::clone ](n: &serde_json::Number) -> (r:
    serde_json::Number)
    ensures
        r == *n,
;

/// Calls `serde_json::Number::from` on a natural number: `as_u64` gives it back, and `Display` writes
/// it in decimal digits.
#[verifier::external_body]
fn natural_number(n: u64) -> (r: serde_json::Number)
    ensures
        number_natural(r) == Some(n),
        number_text(r) == decimal(n as nat),
{
    serde_json::Number::from(n)
}

/// The outermost layer of a `serde_json::Value`.
pub enum JsonLayer<'a> {
    Null,
    Bool(bool),
    Number(&'a serde_json::Number),
    Text(&'a String),
    List(&'a Vec<serde_json::Value>),
    Record(Vec<(&'a String, &'a serde_json::Value)>),
}

/// Calls `serde_json::from_str` for a `serde_json::Value`. The contract names its result: which
/// texts it reads, and what it reads in them, depends on the text alone.
#[verifier::external_body]
fn read_json(text: &str) -> (r: Result<serde_json::Value, serde_json::Error>)
    ensures
        match r {
            Ok(v) => json_document(text@) == Some(json_tree(v)),
            Err(_) => json_document(text@) is None,
        },
{
    serde_json::from_str(text)
}

/// Tells the variants of a `serde_json::Value` apart. An object is handed on by its fields in the
/// order of `serde_json::Map::iter`, which is that of the keys in a `BTreeMap`; no key occurs
/// twice in it.
#[verifier::external_body]
fn json_layer(v: &serde_json::Value) -> (r: JsonLayer<'_>)
    ensures
        match r {
            JsonLayer::Null => json_tree(*v) == Json::Null,
            JsonLayer::Bool(b) => json_tree(*v) == Json::Bool(b),
            JsonLayer::Number(n) => json_tree(*v) == Json::Number(number_natural(*n), number_text(*n)),
            JsonLayer::Text(t) => json_tree(*v) == Json::Text(t@),
            JsonLayer::List(items) => json_tree(*v) == Json::List(
                Seq::new(items@.len(), |i: int| json_tree(items@[i])),
            ),
            JsonLayer::Record(fields) => {
                &&& json_tree(*v) == Json::Record(
                    Seq::new(fields@.len(), |i: int| (fields@[i].0@, json_tree(*fields@[i].1))),
                )
                &&& ordered(Seq::new(fields@.len(), |i: int| fields@[i].0@))
            },
        },
{
    match v {
        serde_json::Value::Null => JsonLayer::Null,
        serde_json::Value::Bool(b) => JsonLayer::Bool(*b),
        serde_json::Value::Number(n) => JsonLayer::Number(n),
        serde_json::Value::String(s) => JsonLayer::Text(s),
        serde_json::Value::Array(items) => JsonLayer::List(items),
        serde_json::Value::Object(fields) => JsonLayer::Record(fields.iter().collect()),
    }
}

/// The plain tree of a `serde_json::Value`.
pub fn plain_json(v: &serde_json::Value) -> (r: JsonValue)
    ensures
        r@ == json_tree(*v),
    decreases json_tree(*v),
{
    match json_layer(v) {
        JsonLayer::Null => JsonValue::Null,
        JsonLayer::Bool(b) => JsonValue::Bool(b),
        JsonLayer::Number(n) => JsonValue::Number(n.clone()),
        JsonLayer::Text(t) => JsonValue::Text(t.clone()),
        JsonLayer::List(items) => {
            let ghost tree = json_tree(*v)->List_0;
            let mut out: Vec<JsonValue> = Vec::new();
            let mut i: usize = 0;
            while i < items.len()
                invariant
                    i <= items.len(),
                    out@.len() == i,
                    json_tree(*v) == Json::List(tree),
                    tree == Seq::new(items@.len(), |k: int| json_tree(items@[k])),
                    forall|k: int| 0 <= k < i ==> (#[trigger] out@[k])@ == tree[k],
                decreases items.len() - i,
            {
                assert(tree[i as int] == json_tree(items@[i as int]));
                assert(decreases_to!(json_tree(*v) => json_tree(*v)->List_0));
                assert(decreases_to!(tree => tree[i as int]));
                let child: JsonValue = plain_json(&items[i]);
                out.push(child);
                i += 1;
            }
            let r: JsonValue = JsonValue::List(out);
            assert(r@->List_0 =~= tree);
            r
        },
        JsonLayer::Record(fields) => {
            let ghost tree = json_tree(*v)->Record_0;
            let mut out: Vec<(String, JsonValue)> = Vec::new();
            let mut i: usize = 0;
            while i < fields.len()
                invariant
                    i <= fields.len(),
                    out@.len() == i,
                    json_tree(*v) == Json::Record(tree),
                    tree == Seq::new(fields@.len(), |k: int| (fields@[k].0@, json_tree(*fields@[k].1))),
                    ordered(Seq::new(fields@.len(), |k: int| fields@[k].0@)),
                    forall|k: int|
                        0 <= k < i ==> (#[trigger] out@[k]).0@ == tree[k].0 && out@[k].1@ == tree[k].1,
                decreases fields.len() - i,
            {
                assert(tree[i as int] == (fields@[i as int].0@, json_tree(*fields@[i as int].1)));
                assert(decreases_to!(json_tree(*v) => json_tree(*v)->Record_0));
                assert(decreases_to!(tree => tree[i as int]));
                assert(decreases_to!(tree[i as int] => tree[i as int].1));
                let child: JsonValue = plain_json(fields[i].1);
                out.push((fields[i].0.clone(), child));
                i += 1;
            }
            let ghost keys = Seq::new(fields@.len(), |k: int| fields@[k].0@);
            assert(field_keys(out@) =~= keys);
            let r: JsonValue = JsonValue::Record(JsonRecord { fields: out });
            assert(r@->Record_0 =~= tree);
            r
        },
    }
}

/// Reads a JSON document.
pub fn parse_json(text: &str) -> (r: Result<JsonValue, serde_json::Error>)
    ensures
        match r {
            Ok(v) => json_document(text@) == Some(v@),
            Err(_) => json_document(text@) is None,
        },
{
    match read_json(text) {
        Ok(v) => Ok(plain_json(&v)),
        Err(e) => Err(e),
    }
}

// ---------------------------------------------------------------------------
// Writing a text
// ---------------------------------------------------------------------------

/// The text that `serde_json::to_string_pretty` writes for a value.
pub uninterp spec fn json_pretty(tree: Json) -> Seq<char>;

/// What a `serde_json::Value` is made of.
pub enum JsonParts {
    Null,
    Bool(bool),
    Number(serde_json::Number),
    Text(String),
    List(Vec<serde_json::Value>),
    Record(Vec<(String, serde_json::Value)>),
}

/// Makes a `serde_json::Value` of its parts. The fields of an object come with their keys in
/// order and none twice, and are collected into a `serde_json::Map`, which keeps that order.
#[verifier::external_body]
fn json_of(parts: JsonParts) -> (r: serde_json::Value)
    requires
        parts matches JsonParts::Record(fields) ==> ordered(
            Seq::new(fields@.len(), |i: int| fields@[i].0@),
        ),
    ensures
        json_tree(r) == match parts {
            JsonParts::Null => Json::Null,
            JsonParts::Bool(b) => Json::Bool(b),
            JsonParts::Number(n) => Json::Number(number_natural(n), number_text(n)),
            JsonParts::Text(t) => Json::Text(t@),
            JsonParts::List(items) => Json::List(Seq::new(items@.len(), |i: int| json_tree(items@[i]))),
            JsonParts::Record(fields) => Json::Record(
                Seq::new(fields@.len(), |i: int| (fields@[i].0@, json_tree(fields@[i].1))),
            ),
        },
{
    match parts {
        JsonParts::Null => serde_json::Value::Null,
        JsonParts::Bool(b) => serde_json::Value::Bool(b),
        JsonParts::Number(n) => serde_json::Value::Number(n),
        JsonParts::Text(t) => serde_json::Value::String(t),
        JsonParts::List(items) => serde_json::Value::Array(items),
        JsonParts::Record(fields) => serde_json::Value::Object(fields.into_iter().collect()),
    }
}

/// Calls `serde_json::to_string_pretty` for a `serde_json::Value`. It can fail only for a map with
/// keys other than strings, or for a type whose own `Serialize` fails: a `Value` has neither. The
/// contract names the text, which depends on what the value holds alone.
#[verifier::external_body]
fn write_pretty(v: &serde_json::Value) -> (r: Result<String, serde_json::Error>)
    ensures
        match r {
            Ok(text) => text@ == json_pretty(json_tree(*v)),
            Err(_) => false,
        },
{
    serde_json::to_string_pretty(v)
}

/// The `serde_json::Value` of a plain tree.
pub fn outside_json(v: &JsonValue) -> (r: serde_json::Value)
    ensures
        json_tree(r) == v@,
    decreases v,
{
    proof {
        lemma_json_view(*v);
    }
    match v {
        JsonValue::Null => json_of(JsonParts::Null),
        JsonValue::Bool(b) => json_of(JsonParts::Bool(*b)),
        JsonValue::Number(n) => json_of(JsonParts::Number(n.clone())),
        JsonValue::Text(t) => json_of(JsonParts::Text(t.clone())),
        JsonValue::List(items) => {
            let mut out: Vec<serde_json::Value> = Vec::new();
            let mut i: usize = 0;
            while i < items.len()
                invariant
                    i <= items.len(),
                    *v == JsonValue::List(*items),
                    out@.len() == i,
                    forall|k: int| 0 <= k < i ==> json_tree(#[trigger] out@[k]) == items@[k]@,
                decreases items.len() - i,
            {
                assert(decreases_to!(*v => v->List_0));
                assert(decreases_to!(*items => items@));
                assert(decreases_to!(items@ => items@[i as int]));
                let child: serde_json::Value = outside_json(&items[i]);
                out.push(child);
                i += 1;
            }
            assert(Seq::new(out@.len(), |k: int| json_tree(out@[k])) =~= json_views(items@));
            json_of(JsonParts::List(out))
        },
        JsonValue::Record(record) => {
            proof {
                use_type_invariant(record);
            }
            let fields: &Vec<(String, JsonValue)> = &record.fields;
            let mut out: Vec<(String, serde_json::Value)> = Vec::new();
            let mut i: usize = 0;
            while i < fields.len()
                invariant
                    i <= fields.len(),
                    *v == JsonValue::Record(*record),
                    *fields == record.fields,
                    out@.len() == i,
                    forall|k: int|
                        0 <= k < i ==> (#[trigger] out@[k]).0@ == fields@[k].0@ && json_tree(out@[k].1)
                            == fields@[k].1@,
                decreases fields.len() - i,
            {
                assert(decreases_to!(*v => v->Record_0));
                assert(decreases_to!(*record => record.fields));
                assert(decreases_to!(record.fields => record.fields@));
                assert(decreases_to!(fields@ => fields@[i as int]));
                assert(decreases_to!(fields@[i as int] => fields@[i as int].1));
                let child: serde_json::Value = outside_json(&fields[i].1);
                out.push((fields[i].0.clone(), child));
                i += 1;
            }
            assert(Seq::new(out@.len(), |k: int| out@[k].0@) =~= field_keys(fields@));
            assert(Seq::new(out@.len(), |k: int| (out@[k].0@, json_tree(out@[k].1))) =~= field_views(
                fields@,
            ));
            json_of(JsonParts::Record(out))
        },
    }
}

/// Writes a value as indented text.
pub fn pretty_json(v: &JsonValue) -> (r: Result<String, serde_json::Error>)
    ensures
        r matches Ok(text) && text@ == json_pretty(v@),
{
    write_pretty(&outside_json(v))
}

} // verus!
