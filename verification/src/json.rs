//! JSON documents.
//!
//! [`Json`] is the library's own document type. Reading and writing JSON text
//! is the work of `serde_json`; this module turns its `Value` into a [`Json`]
//! and back.
use crate::text::{option_str, option_text, same};
use vstd::prelude::*;

verus! {

/// A JSON document.
#[derive(Debug)]
pub enum Json {
    /// `null`.
    Null,
    /// `true` or `false`.
    Bool(bool),
    /// A number, as `serde_json` holds it.
    Number(serde_json::Number),
    /// A string.
    Text(String),
    /// An array.
    Array(Vec<Json>),
    /// An object: its fields, each a name and a value. Where a name occurs
    /// more than once, the first field of that name counts.
    Object(Vec<(String, Json)>),
}

/// What a [`Json`] document holds.
#[verifier::ext_equal]
pub enum JsonView {
    /// `null`.
    Null,
    /// `true` or `false`.
    Bool(bool),
    /// A number.
    Number(serde_json::Number),
    /// A string.
    Text(Seq<char>),
    /// An array.
    Array(Seq<JsonView>),
    /// An object, as the map from its names to its values.
    Object(Map<Seq<char>, JsonView>),
}

/// The number type of `serde_json`, carried through unopened.
#[verifier::external_type_specification]
#[verifier::external_body]
pub struct ExNumber(serde_json::Number);

/// The document type of `serde_json`.
#[verifier::external_type_specification]
#[verifier::external_body]
pub struct ExValue(serde_json::Value);

/// What a `serde_json` document holds.
pub uninterp spec fn value_view(value: serde_json::Value) -> JsonView;

/// What `serde_json::Number::as_u64` returns.
pub uninterp spec fn number_as_u64(number: serde_json::Number) -> Option<u64>;

/// What `serde_json::Number::from` makes of a `u64`.
pub uninterp spec fn u64_number(n: u64) -> serde_json::Number;

/// What `serde_json::from_str` reads in a text: the document, or nothing where
/// the text is not JSON.
pub uninterp spec fn text_as_json(text: Seq<char>) -> Option<JsonView>;

/// The compact text that `serde_json` writes for a document.
pub uninterp spec fn json_as_text(json: JsonView) -> Seq<char>;

/// The map that a list of fields stands for: the first field of a name counts.
pub open spec fn fields_map(fields: Seq<(Seq<char>, JsonView)>) -> Map<Seq<char>, JsonView>
    decreases fields.len(),
{
    if fields.len() == 0 {
        Map::empty()
    } else {
        fields_map(fields.drop_first()).insert(fields[0].0, fields[0].1)
    }
}

impl Json {
    /// What the document holds.
    pub open spec fn view(&self) -> JsonView
        decreases self,
    {
        match *self {
            Json::Null => JsonView::Null,
            Json::Bool(b) => JsonView::Bool(b),
            Json::Number(n) => JsonView::Number(n),
            Json::Text(s) => JsonView::Text(s@),
            Json::Array(items) => JsonView::Array(
                Seq::new(
                    items@.len(),
                    |i: int|
                        if 0 <= i < items@.len() {
                            items@[i].view()
                        } else {
                            JsonView::Null
                        },
                ),
            ),
            Json::Object(fields) => JsonView::Object(object_map(fields@)),
        }
    }
}

/// The map that the fields of an object stand for.
pub open spec fn object_map(fields: Seq<(String, Json)>) -> Map<Seq<char>, JsonView>
    decreases fields,
{
    if fields.len() == 0 {
        Map::empty()
    } else {
        object_map(fields.drop_first()).insert(fields[0].0@, fields[0].1.view())
    }
}

/// One level of a `serde_json` document.
pub(crate) enum ValueParts {
    Null,
    Bool(bool),
    Number(serde_json::Number),
    Text(String),
    Array(Vec<serde_json::Value>),
    Object(Vec<(String, serde_json::Value)>),
}

/// The document that the parts make up.
pub(crate) open spec fn parts_view(parts: ValueParts) -> JsonView {
    match parts {
        ValueParts::Null => JsonView::Null,
        ValueParts::Bool(b) => JsonView::Bool(b),
        ValueParts::Number(n) => JsonView::Number(n),
        ValueParts::Text(s) => JsonView::Text(s@),
        ValueParts::Array(items) => JsonView::Array(
            items@.map_values(|item: serde_json::Value| value_view(item)),
        ),
        ValueParts::Object(fields) => JsonView::Object(
            fields_map(
                fields@.map_values(|field: (String, serde_json::Value)| (field.0@, value_view(field.1))),
            ),
        ),
    }
}

/// Whether no name occurs twice.
pub open spec fn distinct_names(fields: Seq<(Seq<char>, JsonView)>) -> bool {
    forall|i: int, j: int| 0 <= i < j < fields.len() ==> #[trigger] fields[i].0 != #[trigger] fields[j].0
}

/// `serde_json::from_str` into a `serde_json::Value`: the document where the
/// text is JSON, nothing where it is not.
#[verifier::external_body]
fn read_value(text: &str) -> (r: Option<serde_json::Value>)
    ensures
        match r {
            Some(value) => text_as_json(text@) == Some(value_view(value)),
            None => text_as_json(text@) is None,
        },
{
    serde_json::from_str::<serde_json::Value>(text).ok()
}

/// `Display` of a `serde_json::Value`: its compact text.
#[verifier::external_body]
fn write_value(value: &serde_json::Value) -> (r: String)
    ensures
        r@ == json_as_text(value_view(*value)),
{
    value.to_string()
}

/// What `serde_json::to_string_pretty` writes.
pub uninterp spec fn json_as_pretty_text(json: JsonView) -> Option<Seq<char>>;

/// `serde_json::to_string_pretty` of a `serde_json::Value`: its indented text.
#[verifier::external_body]
fn write_value_pretty(value: &serde_json::Value) -> (r: Option<String>)
    ensures
        option_text(r) == json_as_pretty_text(value_view(*value)),
{
    serde_json::to_string_pretty(value).ok()
}

/// Matches a `serde_json::Value` by its variants: the parts make up the
/// document that the value holds, and no field name comes twice.
#[verifier::external_body]
fn open_value(value: serde_json::Value) -> (r: ValueParts)
    ensures
        parts_view(r) == value_view(value),
        r matches ValueParts::Object(fields) ==> distinct_names(
            fields@.map_values(|field: (String, serde_json::Value)| (field.0@, value_view(field.1))),
        ),
{
    match value {
        serde_json::Value::Null => ValueParts::Null,
        serde_json::Value::Bool(b) => ValueParts::Bool(b),
        serde_json::Value::Number(n) => ValueParts::Number(n),
        serde_json::Value::String(s) => ValueParts::Text(s),
        serde_json::Value::Array(items) => ValueParts::Array(items),
        serde_json::Value::Object(fields) => ValueParts::Object(fields.into_iter().collect()),
    }
}

/// Builds a `serde_json::Value` by its variants: the value holds the document
/// that the parts make up.
#[verifier::external_body]
fn make_value(parts: ValueParts) -> (r: serde_json::Value)
    requires
        parts matches ValueParts::Object(fields) ==> distinct_names(
            fields@.map_values(|field: (String, serde_json::Value)| (field.0@, value_view(field.1))),
        ),
    ensures
        value_view(r) == parts_view(parts),
{
    match parts {
        ValueParts::Null => serde_json::Value::Null,
        ValueParts::Bool(b) => serde_json::Value::Bool(b),
        ValueParts::Number(n) => serde_json::Value::Number(n),
        ValueParts::Text(s) => serde_json::Value::String(s),
        ValueParts::Array(items) => serde_json::Value::Array(items),
        ValueParts::Object(fields) => serde_json::Value::Object(fields.into_iter().collect()),
    }
}

/// `serde_json::Number::as_u64`.
#[verifier::external_body]
fn number_u64(number: &serde_json::Number) -> (r: Option<u64>)
    ensures
        r == number_as_u64(*number),
{
    number.as_u64()
}

/// `serde_json::Number::from` on a `u64`: a number that reads back as it.
#[verifier::external_body]
fn number_of(n: u64) -> (r: serde_json::Number)
    ensures
        r == u64_number(n),
        number_as_u64(r) == Some(n),
{
    serde_json::Number::from(n)
}

/// `Clone` of a `serde_json::Number`: the same number.
#[verifier::external_body]
fn copy_number(number: &serde_json::Number) -> (r: serde_json::Number)
    ensures
        r == *number,
{
    number.clone()
}

/// What the items of an array hold.
pub open spec fn items_view(items: Seq<Json>) -> Seq<JsonView> {
    items.map_values(|item: Json| item@)
}

/// What the fields of an object hold.
pub open spec fn fields_view(fields: Seq<(String, Json)>) -> Seq<(Seq<char>, JsonView)> {
    fields.map_values(|field: (String, Json)| (field.0@, field.1@))
}

/// An array holds what its items hold.
pub broadcast proof fn lemma_array_view(items: Vec<Json>)
    ensures
        #[trigger] Json::Array(items)@ == JsonView::Array(items_view(items@)),
{
    assert(Json::Array(items)@->Array_0 =~= items_view(items@));
}

/// An object holds what its fields hold.
pub broadcast proof fn lemma_object_view(fields: Vec<(String, Json)>)
    ensures
        #[trigger] Json::Object(fields)@ == JsonView::Object(fields_map(fields_view(fields@))),
{
    lemma_object_map(fields@);
}

/// The map of an object's fields is the map of what the fields hold.
pub proof fn lemma_object_map(fields: Seq<(String, Json)>)
    ensures
        object_map(fields) == fields_map(fields_view(fields)),
    decreases fields.len(),
{
    if fields.len() > 0 {
        lemma_object_map(fields.drop_first());
        assert(fields_view(fields.drop_first()) =~= fields_view(fields).drop_first());
    }
}

/// The map of a list of fields holds each field's name, and only those, and
/// every value in it is the value of a field of that name.
pub proof fn lemma_fields_map(fields: Seq<(Seq<char>, JsonView)>)
    ensures
        forall|k: Seq<char>|
            fields_map(fields).dom().contains(k) <==> exists|i: int|
                0 <= i < fields.len() && #[trigger] fields[i].0 == k,
        forall|k: Seq<char>|
            fields_map(fields).dom().contains(k) ==> exists|i: int|
                0 <= i < fields.len() && #[trigger] fields[i] == (k, fields_map(fields)[k]) && forall|
                    j: int,
                |
                    0 <= j < i ==> #[trigger] fields[j].0 != k,
        fields_map(fields).dom().finite(),
    decreases fields.len(),
{
    if fields.len() > 0 {
        let rest = fields.drop_first();
        lemma_fields_map(rest);
        assert forall|k: Seq<char>|
            fields_map(fields).dom().contains(k) <==> exists|i: int|
                0 <= i < fields.len() && #[trigger] fields[i].0 == k by {
            if exists|i: int| 0 <= i < fields.len() && #[trigger] fields[i].0 == k {
                let i = choose|i: int| 0 <= i < fields.len() && #[trigger] fields[i].0 == k;
                if i > 0 {
                    assert(rest[i - 1].0 == k);
                }
            }
            if fields_map(rest).dom().contains(k) {
                let i = choose|i: int| 0 <= i < rest.len() && #[trigger] rest[i].0 == k;
                assert(fields[i + 1].0 == k);
            }
            if k == fields[0].0 {
                assert(fields[0].0 == k);
            }
        }
        assert forall|k: Seq<char>| fields_map(fields).dom().contains(k) implies exists|i: int|
            0 <= i < fields.len() && #[trigger] fields[i] == (k, fields_map(fields)[k]) && forall|
                j: int,
            |
                0 <= j < i ==> #[trigger] fields[j].0 != k by {
            if k == fields[0].0 {
                assert(fields[0] == (k, fields_map(fields)[k]));
            } else {
                let i = choose|i: int|
                    0 <= i < rest.len() && #[trigger] rest[i] == (k, fields_map(rest)[k]) && forall|
                        j: int,
                    |
                        0 <= j < i ==> #[trigger] rest[j].0 != k;
                assert(fields[i + 1] == (k, fields_map(fields)[k]));
                assert forall|j: int| 0 <= j < i + 1 implies #[trigger] fields[j].0 != k by {
                    if j > 0 {
                        assert(rest[j - 1].0 != k);
                    }
                }
            }
        }
    }
}

/// A name's first field decides its value.
pub proof fn lemma_first_field(fields: Seq<(Seq<char>, JsonView)>, i: int)
    requires
        0 <= i < fields.len(),
        forall|j: int| 0 <= j < i ==> #[trigger] fields[j].0 != fields[i].0,
    ensures
        fields_map(fields).dom().contains(fields[i].0),
        fields_map(fields)[fields[i].0] == fields[i].1,
{
    lemma_fields_map(fields);
    let name = fields[i].0;
    assert(fields_map(fields).dom().contains(name));
    let m = choose|m: int|
        0 <= m < fields.len() && #[trigger] fields[m] == (name, fields_map(fields)[name]) && forall|
            j: int,
        |
            0 <= j < m ==> #[trigger] fields[j].0 != name;
    assert(fields[m].0 == name);
    if m > i {
        assert(fields[i].0 != name);
    }
    if m < i {
        assert(fields[m].0 != name);
    }
}

/// Where no name comes twice, every field decides its name's value.
pub proof fn lemma_lookup(fields: Seq<(Seq<char>, JsonView)>, i: int)
    requires
        distinct_names(fields),
        0 <= i < fields.len(),
    ensures
        fields_map(fields).dom().contains(fields[i].0),
        fields_map(fields)[fields[i].0] == fields[i].1,
{
    assert forall|j: int| 0 <= j < i implies #[trigger] fields[j].0 != fields[i].0 by {}
    lemma_first_field(fields, i);
}

/// A further field of a name that has one already changes nothing; one of a
/// new name adds it.
pub proof fn lemma_push_field(fields: Seq<(Seq<char>, JsonView)>, field: (Seq<char>, JsonView))
    ensures
        fields_map(fields).dom().contains(field.0) ==> fields_map(fields.push(field)) == fields_map(
            fields,
        ),
        !fields_map(fields).dom().contains(field.0) ==> fields_map(fields.push(field)) == fields_map(
            fields,
        ).insert(field.0, field.1),
    decreases fields.len(),
{
    let longer = fields.push(field);
    if fields.len() == 0 {
        assert(longer.drop_first() =~= Seq::empty());
        assert(fields_map(longer.drop_first()) =~= Map::empty());
    } else {
        let rest = fields.drop_first();
        lemma_push_field(rest, field);
        assert(longer.drop_first() =~= rest.push(field));
        assert(longer[0] == fields[0]);
        if fields_map(fields).dom().contains(field.0) {
            if fields_map(rest).dom().contains(field.0) {
            } else {
                assert(field.0 == fields[0].0);
                assert(fields_map(longer) =~= fields_map(fields));
            }
        } else {
            assert(fields_map(longer) =~= fields_map(fields).insert(field.0, field.1));
        }
    }
}

/// Replacing a name's first field replaces its value.
pub proof fn lemma_update_field(fields: Seq<(Seq<char>, JsonView)>, i: int, value: JsonView)
    requires
        0 <= i < fields.len(),
        forall|j: int| 0 <= j < i ==> #[trigger] fields[j].0 != fields[i].0,
    ensures
        fields_map(fields.update(i, (fields[i].0, value))) == fields_map(fields).insert(
            fields[i].0,
            value,
        ),
    decreases i,
{
    let name = fields[i].0;
    let updated = fields.update(i, (name, value));
    let rest = fields.drop_first();
    if i == 0 {
        assert(updated.drop_first() =~= rest);
        assert(fields_map(updated) =~= fields_map(fields).insert(name, value));
    } else {
        assert forall|j: int| 0 <= j < i - 1 implies #[trigger] rest[j].0 != rest[i - 1].0 by {
            assert(fields[j + 1].0 != name);
        }
        lemma_update_field(rest, i - 1, value);
        assert(updated.drop_first() =~= rest.update(i - 1, (name, value)));
        assert(fields[0].0 != name);
        assert(fields_map(updated) =~= fields_map(fields).insert(name, value));
    }
}

/// The fields of any other name.
pub open spec fn named_otherwise(name: Seq<char>) -> spec_fn((Seq<char>, JsonView)) -> bool {
    |field: (Seq<char>, JsonView)| field.0 != name
}

/// Dropping the fields of a name drops the name and nothing else.
pub proof fn lemma_names_without(
    fields: Seq<(Seq<char>, JsonView)>,
    kept: Seq<(Seq<char>, JsonView)>,
    name: Seq<char>,
)
    requires
        kept == fields.filter(named_otherwise(name)),
    ensures
        fields_map(kept) == fields_map(fields).remove(name),
    decreases fields.len(),
{
    let keep = named_otherwise(name);
    reveal(Seq::filter);
    if fields.len() == 0 {
        assert(fields_map(kept) =~= fields_map(fields).remove(name));
    } else {
        let rest = fields.drop_last();
        let last = fields.last();
        lemma_names_without(rest, rest.filter(keep), name);
        assert(fields =~= rest.push(last));
        lemma_push_field(rest, last);
        lemma_push_field(rest.filter(keep), last);
        if last.0 != name {
            assert(kept =~= rest.filter(keep).push(last));
        } else {
            assert(kept =~= rest.filter(keep));
        }
        assert(fields_map(kept) =~= fields_map(fields).remove(name));
    }
}

/// The library's document for a `serde_json` document.
fn json_of_value(value: serde_json::Value) -> (r: Json)
    ensures
        r@ == value_view(value),
    decreases value_view(value),
{
    broadcast use lemma_array_view, lemma_object_view;
    let ghost view = value_view(value);
    match open_value(value) {
        ValueParts::Null => Json::Null,
        ValueParts::Bool(b) => Json::Bool(b),
        ValueParts::Number(n) => Json::Number(n),
        ValueParts::Text(s) => Json::Text(s),
        ValueParts::Array(items) => {
            let ghost all = items@;
            let mut out: Vec<Json> = Vec::new();
            for item in it: items
                invariant
                    it.seq() == all,
                    view == JsonView::Array(all.map_values(|item: serde_json::Value| value_view(item))),
                    view == value_view(value),
                    out@.len() == it.index(),
                    forall|k: int| 0 <= k < out@.len() ==> #[trigger] out@[k]@ == value_view(all[k]),
            {
                proof {
                    assert(view->Array_0[it.index()] == value_view(item));
                    assert(decreases_to!(view => view->Array_0));
                    assert(decreases_to!(view->Array_0 => view->Array_0[it.index()]));
                }
                out.push(json_of_value(item));
            }
            assert(items_view(out@) =~= view->Array_0);
            Json::Array(out)
        },
        ValueParts::Object(fields) => {
            let ghost all = fields@;
            let ghost views = all.map_values(
                |field: (String, serde_json::Value)| (field.0@, value_view(field.1)),
            );
            let mut out: Vec<(String, Json)> = Vec::new();
            for field in it: fields
                invariant
                    it.seq() == all,
                    views == all.map_values(
                        |field: (String, serde_json::Value)| (field.0@, value_view(field.1)),
                    ),
                    view == JsonView::Object(fields_map(views)),
                    distinct_names(views),
                    view == value_view(value),
                    out@.len() == it.index(),
                    forall|k: int|
                        0 <= k < out@.len() ==> (#[trigger] out@[k]).0@ == views[k].0 && out@[k].1@
                            == views[k].1,
            {
                proof {
                    assert(views[it.index()] == (field.0@, value_view(field.1)));
                    lemma_fields_map(views);
                    assert(views[it.index()].0 == field.0@);
                    lemma_lookup(views, it.index());
                    assert(decreases_to!(view => view->Object_0));
                    assert(decreases_to!(view->Object_0 => view->Object_0[field.0@]));
                }
                let (name, inner) = field;
                out.push((name, json_of_value(inner)));
            }
            assert(fields_view(out@) =~= views);
            Json::Object(out)
        },
    }
}

/// The `serde_json` document for a document of the library.
fn value_of_json(json: &Json) -> (r: serde_json::Value)
    ensures
        value_view(r) == json@,
    decreases json,
{
    broadcast use lemma_array_view, lemma_object_view;
    match json {
        Json::Null => make_value(ValueParts::Null),
        Json::Bool(b) => make_value(ValueParts::Bool(*b)),
        Json::Number(n) => make_value(ValueParts::Number(copy_number(n))),
        Json::Text(s) => make_value(ValueParts::Text(s.clone())),
        Json::Array(items) => {
            let mut out: Vec<serde_json::Value> = Vec::new();
            let mut i: usize = 0;
            while i < items.len()
                invariant
                    *json == Json::Array(*items),
                    i <= items@.len(),
                    out@.len() == i,
                    forall|k: int| 0 <= k < out@.len() ==> #[trigger] value_view(out@[k]) == items@[k]@,
                decreases items@.len() - i,
            {
                assert(decreases_to!(*json => json->Array_0));
                assert(decreases_to!(items@ => items@[i as int]));
                out.push(value_of_json(&items[i]));
                i += 1;
            }
            assert(out@.map_values(|item: serde_json::Value| value_view(item)) =~= items_view(items@));
            make_value(ValueParts::Array(out))
        },
        Json::Object(fields) => {
            let ghost views = fields_view(fields@);
            let ghost pair = |field: (String, serde_json::Value)| (field.0@, value_view(field.1));
            let mut out: Vec<(String, serde_json::Value)> = Vec::new();
            let mut i: usize = 0;
            while i < fields.len()
                invariant
                    *json == Json::Object(*fields),
                    views == fields_view(fields@),
                    pair == (|field: (String, serde_json::Value)| (field.0@, value_view(field.1))),
                    i <= fields@.len(),
                    distinct_names(out@.map_values(pair)),
                    fields_map(out@.map_values(pair)) == fields_map(views.take(i as int)),
                decreases fields@.len() - i,
            {
                let ghost done = out@.map_values(pair);
                let ghost field = views[i as int];
                proof {
                    assert(views.take(i + 1) =~= views.take(i as int).push(field));
                    lemma_push_field(views.take(i as int), field);
                    lemma_push_field(done, field);
                    lemma_fields_map(done);
                }
                let mut seen = false;
                let mut j: usize = 0;
                while j < out.len()
                    invariant
                        i < fields@.len(),
                        done == out@.map_values(pair),
                        pair == (|field: (String, serde_json::Value)| (field.0@, value_view(field.1))),
                        j <= out@.len(),
                        seen <==> exists|k: int| 0 <= k < j && #[trigger] done[k].0 == fields@[i as int].0@,
                    decreases out@.len() - j,
                {
                    assert(done[j as int].0 == out@[j as int].0@);
                    if same(&out[j].0, &fields[i].0) {
                        seen = true;
                    }
                    j += 1;
                }
                if !seen {
                    assert(decreases_to!(*json => json->Object_0));
                    assert(decreases_to!(fields@ => fields@[i as int]));
                    assert(decreases_to!(fields@[i as int] => fields@[i as int].1));
                    let inner = value_of_json(&fields[i].1);
                    out.push((fields[i].0.clone(), inner));
                    assert(out@.map_values(pair) =~= done.push(field));
                    assert(distinct_names(out@.map_values(pair)));
                }
                i += 1;
            }
            assert(views.take(fields@.len() as int) =~= views);
            make_value(ValueParts::Object(out))
        },
    }
}

impl JsonView {
    /// The value of the field `name`, where the document is an object that has it.
    pub open spec fn field(self, name: Seq<char>) -> Option<JsonView> {
        match self {
            JsonView::Object(fields) => if fields.dom().contains(name) {
                Some(fields[name])
            } else {
                None
            },
            _ => None,
        }
    }

    /// The string, where the document is one.
    pub open spec fn text(self) -> Option<Seq<char>> {
        match self {
            JsonView::Text(s) => Some(s),
            _ => None,
        }
    }

    /// The items, where the document is an array.
    pub open spec fn items(self) -> Option<Seq<JsonView>> {
        match self {
            JsonView::Array(items) => Some(items),
            _ => None,
        }
    }

    /// The number, where the document is one that fits a `u64`.
    pub open spec fn uint(self) -> Option<u64> {
        match self {
            JsonView::Number(n) => number_as_u64(n),
            _ => None,
        }
    }

    /// The truth value, where the document is one.
    pub open spec fn boolean(self) -> Option<bool> {
        match self {
            JsonView::Bool(b) => Some(b),
            _ => None,
        }
    }

    /// The string in the field `name`.
    pub open spec fn text_field(self, name: Seq<char>) -> Option<Seq<char>> {
        match self.field(name) {
            Some(value) => value.text(),
            None => None,
        }
    }

    /// The array in the field `name`.
    pub open spec fn array_field(self, name: Seq<char>) -> Option<Seq<JsonView>> {
        match self.field(name) {
            Some(value) => value.items(),
            None => None,
        }
    }

    /// The `u64` in the field `name`.
    pub open spec fn uint_field(self, name: Seq<char>) -> Option<u64> {
        match self.field(name) {
            Some(value) => value.uint(),
            None => None,
        }
    }
}

/// The document of a number.
pub open spec fn number_view(n: u64) -> JsonView {
    JsonView::Number(u64_number(n))
}

/// The document without fields.
pub open spec fn empty_object() -> JsonView {
    JsonView::Object(Map::empty())
}

/// The object with the field `name` set to `value`; any other document as it is.
pub open spec fn with_field(json: JsonView, name: Seq<char>, value: JsonView) -> JsonView {
    match json {
        JsonView::Object(fields) => JsonView::Object(fields.insert(name, value)),
        _ => json,
    }
}

/// The object without the field `name`; any other document as it is.
pub open spec fn without_field(json: JsonView, name: Seq<char>) -> JsonView {
    match json {
        JsonView::Object(fields) => JsonView::Object(fields.remove(name)),
        _ => json,
    }
}

/// What an optional document holds.
pub open spec fn option_view(json: Option<&Json>) -> Option<JsonView> {
    match json {
        Some(json) => Some(json@),
        None => None,
    }
}

/// Reads a JSON text.
pub fn parse_json(text: &str) -> (r: Option<Json>)
    ensures
        match r {
            Some(json) => text_as_json(text@) == Some(json@),
            None => text_as_json(text@) is None,
        },
{
    match read_value(text) {
        Some(value) => Some(json_of_value(value)),
        None => None,
    }
}

impl Clone for Json {
    /// A document that holds the same.
    fn clone(&self) -> (r: Self)
        ensures
            r@ == self@,
        decreases self,
    {
        broadcast use lemma_array_view, lemma_object_view;
        match self {
            Json::Null => Json::Null,
            Json::Bool(b) => Json::Bool(*b),
            Json::Number(n) => Json::Number(copy_number(n)),
            Json::Text(s) => Json::Text(s.clone()),
            Json::Array(items) => {
                let mut out: Vec<Json> = Vec::new();
                let mut i: usize = 0;
                while i < items.len()
                    invariant
                        *self == Json::Array(*items),
                        i <= items@.len(),
                        out@.len() == i,
                        forall|k: int| 0 <= k < out@.len() ==> #[trigger] out@[k]@ == items@[k]@,
                    decreases items@.len() - i,
                {
                    assert(decreases_to!(*self => self->Array_0));
                    assert(decreases_to!(items@ => items@[i as int]));
                    out.push((&items[i]).clone());
                    i += 1;
                }
                assert(items_view(out@) =~= items_view(items@));
                Json::Array(out)
            },
            Json::Object(fields) => {
                let mut out: Vec<(String, Json)> = Vec::new();
                let mut i: usize = 0;
                while i < fields.len()
                    invariant
                        *self == Json::Object(*fields),
                        i <= fields@.len(),
                        out@.len() == i,
                        forall|k: int|
                            0 <= k < out@.len() ==> (#[trigger] out@[k]).0@ == fields@[k].0@
                                && out@[k].1@ == fields@[k].1@,
                    decreases fields@.len() - i,
                {
                    assert(decreases_to!(*self => self->Object_0));
                    assert(decreases_to!(fields@ => fields@[i as int]));
                    assert(decreases_to!(fields@[i as int] => fields@[i as int].1));
                    let inner = (&fields[i].1).clone();
                    out.push((fields[i].0.clone(), inner));
                    i += 1;
                }
                assert(fields_view(out@) =~= fields_view(fields@));
                Json::Object(out)
            },
        }
    }
}

impl Json {
    /// A string document.
    pub fn text(s: &str) -> (r: Json)
        ensures
            r@ == JsonView::Text(s@),
    {
        Json::Text(s.to_owned())
    }

    /// A number document.
    pub fn uint(n: u64) -> (r: Json)
        ensures
            r@ == number_view(n),
            r@.uint() == Some(n),
    {
        Json::Number(number_of(n))
    }

    /// The object without fields.
    pub fn object() -> (r: Json)
        ensures
            r@ == empty_object(),
    {
        broadcast use lemma_object_view;
        let r = Json::Object(Vec::new());
        assert(fields_view(r->Object_0@) =~= Seq::empty());
        r
    }

    /// The indented text of the document.
    pub fn to_pretty_text(&self) -> (r: Option<String>)
        ensures
            option_text(r) == json_as_pretty_text(self@),
    {
        write_value_pretty(&value_of_json(self))
    }

    /// The compact text of the document.
    pub fn to_text(&self) -> (r: String)
        ensures
            r@ == json_as_text(self@),
    {
        write_value(&value_of_json(self))
    }

    /// The string, where the document is one.
    pub fn as_str(&self) -> (r: Option<&str>)
        ensures
            option_str(r) == self@.text(),
    {
        match self {
            Json::Text(s) => Some(s.as_str()),
            _ => None,
        }
    }

    /// The number, where the document is one that fits a `u64`.
    pub fn as_u64(&self) -> (r: Option<u64>)
        ensures
            r == self@.uint(),
    {
        match self {
            Json::Number(n) => number_u64(n),
            _ => None,
        }
    }

    /// The truth value, where the document is one.
    pub fn as_bool(&self) -> (r: Option<bool>)
        ensures
            r == self@.boolean(),
    {
        match self {
            Json::Bool(b) => Some(*b),
            _ => None,
        }
    }

    /// The items, where the document is an array.
    pub fn as_array(&self) -> (r: Option<&Vec<Json>>)
        ensures
            match r {
                Some(items) => self@.items() == Some(items_view(items@)),
                None => self@.items() is None,
            },
    {
        broadcast use lemma_array_view;
        match self {
            Json::Array(items) => Some(items),
            _ => None,
        }
    }

    /// The value of the field `name`, where the document is an object that has it.
    pub fn get(&self, name: &str) -> (r: Option<&Json>)
        ensures
            option_view(r) == self@.field(name@),
    {
        broadcast use lemma_object_view;
        match self {
            Json::Object(fields) => {
                let ghost views = fields_view(fields@);
                let mut i: usize = 0;
                while i < fields.len()
                    invariant
                        views == fields_view(fields@),
                        self@ == JsonView::Object(fields_map(views)),
                        i <= fields@.len(),
                        forall|j: int| 0 <= j < i ==> #[trigger] views[j].0 != name@,
                    decreases fields@.len() - i,
                {
                    if same(&fields[i].0, name) {
                        proof {
                            assert(views[i as int].0 == name@);
                            lemma_first_field(views, i as int);
                        }
                        return Some(&fields[i].1);
                    }
                    i += 1;
                }
                proof {
                    lemma_fields_map(views);
                }
                None
            },
            _ => None,
        }
    }

    /// The string in the field `name`.
    pub fn get_str(&self, name: &str) -> (r: Option<&str>)
        ensures
            option_str(r) == self@.text_field(name@),
    {
        match self.get(name) {
            Some(value) => value.as_str(),
            None => None,
        }
    }

    /// The `u64` in the field `name`.
    pub fn get_u64(&self, name: &str) -> (r: Option<u64>)
        ensures
            r == self@.uint_field(name@),
    {
        match self.get(name) {
            Some(value) => value.as_u64(),
            None => None,
        }
    }

    /// The array in the field `name`.
    pub fn get_array(&self, name: &str) -> (r: Option<&Vec<Json>>)
        ensures
            match r {
                Some(items) => self@.array_field(name@) == Some(items_view(items@)),
                None => self@.array_field(name@) is None,
            },
    {
        match self.get(name) {
            Some(value) => value.as_array(),
            None => None,
        }
    }

    /// The object with the field `name` set to `value`; any other document as it is.
    pub fn with(self, name: &str, value: Json) -> (r: Json)
        ensures
            r@ == with_field(self@, name@, value@),
    {
        broadcast use lemma_object_view;
        match self {
            Json::Object(fields) => {
                let ghost views = fields_view(fields@);
                let mut fields = fields;
                let mut i: usize = 0;
                while i < fields.len()
                    invariant
                        views == fields_view(fields@),
                        self@ == JsonView::Object(fields_map(views)),
                        i <= fields@.len(),
                        forall|j: int| 0 <= j < i ==> #[trigger] views[j].0 != name@,
                    decreases fields@.len() - i,
                {
                    if same(&fields[i].0, name) {
                        proof {
                            assert(views[i as int].0 == name@);
                            lemma_update_field(views, i as int, value@);
                        }
                        fields[i] = (name.to_owned(), value);
                        assert(fields_view(fields@) =~= views.update(i as int, (name@, value@)));
                        proof {
                            lemma_object_map(fields@);
                        }
                        return Json::Object(fields);
                    }
                    i += 1;
                }
                proof {
                    lemma_fields_map(views);
                    lemma_push_field(views, (name@, value@));
                }
                fields.push((name.to_owned(), value));
                assert(fields_view(fields@) =~= views.push((name@, value@)));
                Json::Object(fields)
            },
            other => other,
        }
    }

    /// The object without the field `name`; any other document as it is.
    pub fn without(self, name: &str) -> (r: Json)
        ensures
            r@ == without_field(self@, name@),
    {
        broadcast use lemma_object_view;
        match self {
            Json::Object(fields) => {
                let ghost views = fields_view(fields@);
                let ghost keep = named_otherwise(name@);
                let ghost all = fields@;
                let mut kept: Vec<(String, Json)> = Vec::new();
                assert(views.take(0).filter(keep) =~= Seq::empty()) by {
                    reveal(Seq::filter);
                }
                for field in it: fields
                    invariant
                        it.seq() == all,
                        views == fields_view(all),
                        keep == named_otherwise(name@),
                        fields_view(kept@) == views.take(it.index() as int).filter(keep),
                {
                    let ghost i = it.index() as int;
                    proof {
                        assert(views.take(i + 1).drop_last() =~= views.take(i));
                        assert(views.take(i + 1).last() == views[i]);
                        reveal(Seq::filter);
                    }
                    if !same(&field.0, name) {
                        let ghost before = fields_view(kept@);
                        kept.push(field);
                        assert(fields_view(kept@) =~= before.push(views[i]));
                    }
                }
                proof {
                    assert(views.take(all.len() as int) =~= views);
                    lemma_names_without(views, fields_view(kept@), name@);
                }
                Json::Object(kept)
            },
            other => other,
        }
    }
}

/// The object of one field.
pub open spec fn object1(name: Seq<char>, value: JsonView) -> JsonView {
    with_field(empty_object(), name, value)
}

/// The object of two fields.
pub open spec fn object2(name1: Seq<char>, value1: JsonView, name2: Seq<char>, value2: JsonView) -> JsonView {
    with_field(object1(name1, value1), name2, value2)
}

/// Setting a field to what it holds changes nothing.
pub proof fn lemma_same_field(json: JsonView, name: Seq<char>)
    requires
        json.field(name) is Some,
    ensures
        with_field(json, name, json.field(name)->0) == json,
{
    assert(with_field(json, name, json.field(name)->0)->Object_0 =~= json->Object_0);
}

} // verus!
