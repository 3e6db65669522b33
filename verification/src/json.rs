//! JSON documents of the reports.
//!
//! Amounts stand in a document as they were recorded, and sums of amounts as their terms; they
//! become numbers when the document is written.

use vstd::prelude::*;
use vstd::string::*;
use crate::all::rows::ModelBreakdown;
use crate::cost::Cost;

verus! {

/// A JSON document.
#[derive(Debug)]
pub enum Json {
    /// A string.
    Text(String),
    /// A count.
    Number(u64),
    /// An amount.
    Money(Cost),
    /// The sum of amounts, added from the first to the last.
    MoneySum(Vec<Cost>),
    /// A document that is written already.
    Written(String),
    /// The usage of models, each as an object.
    Breakdowns(Vec<ModelBreakdown>),
    /// A list.
    Array(Vec<Json>),
    /// An object: its fields in order.
    Object(Vec<(String, Json)>),
}

/// A JSON document by its values.
pub enum JsonModel {
    Text(Seq<char>),
    Number(nat),
    Money(Cost),
    MoneySum(Seq<Cost>),
    Written(Seq<char>),
    Breakdowns(Seq<ModelBreakdown>),
    Array(Seq<JsonModel>),
    Object(Seq<(Seq<char>, JsonModel)>),
}

impl Json {
    /// The document by its values.
    pub open spec fn model(self) -> JsonModel
        decreases self,
    {
        match self {
            Json::Text(text) => JsonModel::Text(text@),
            Json::Number(n) => JsonModel::Number(n as nat),
            Json::Money(cost) => JsonModel::Money(cost),
            Json::MoneySum(costs) => JsonModel::MoneySum(costs@),
            Json::Written(text) => JsonModel::Written(text@),
            Json::Breakdowns(models) => JsonModel::Breakdowns(models@),
            Json::Array(items) => JsonModel::Array(
                Seq::new(
                    items@.len(),
                    |i: int|
                        if 0 <= i < items@.len() {
                            items@[i].model()
                        } else {
                            JsonModel::Number(0)
                        },
                ),
            ),
            Json::Object(fields) => JsonModel::Object(
                Seq::new(
                    fields@.len(),
                    |i: int|
                        if 0 <= i < fields@.len() {
                            (fields@[i].0@, fields@[i].1.model())
                        } else {
                            (Seq::empty(), JsonModel::Number(0))
                        },
                ),
            ),
        }
    }
}

/// The fields of an object by their values.
pub open spec fn fields_model(fields: Seq<(String, Json)>) -> Seq<(Seq<char>, JsonModel)> {
    fields.map_values(|field: (String, Json)| (field.0@, field.1.model()))
}

/// The items of a list by their values.
pub open spec fn items_model(items: Seq<Json>) -> Seq<JsonModel> {
    items.map_values(|item: Json| item.model())
}

/// An object is known by its fields.
pub proof fn lemma_object_model(object: Json)
    requires
        object is Object,
    ensures
        object.model() == JsonModel::Object(fields_model(object->Object_0@)),
{
    let fields = object->Object_0;
    assert(object.model()->Object_0 =~= fields_model(fields@));
}

/// A list is known by its items.
pub proof fn lemma_array_model(array: Json)
    requires
        array is Array,
    ensures
        array.model() == JsonModel::Array(items_model(array->Array_0@)),
{
    let items = array->Array_0;
    assert(array.model()->Array_0 =~= items_model(items@));
}

/// Adds a field to an object.
pub fn put(fields: &mut Vec<(String, Json)>, name: &str, value: Json)
    ensures
        fields_model(final(fields)@) == fields_model(old(fields)@).push((name@, value.model())),
{
    let ghost before = fields_model(fields@);
    let name = name.to_owned();
    fields.push((name, value));
    assert(fields_model(fields@) =~= before.push((name@, value.model())));
}

/// The object with the given fields.
pub fn object(fields: Vec<(String, Json)>) -> (out: Json)
    ensures
        out.model() == JsonModel::Object(fields_model(fields@)),
{
    let out = Json::Object(fields);
    proof {
        lemma_object_model(out);
    }
    out
}

/// The list of the given items.
pub fn array(items: Vec<Json>) -> (out: Json)
    ensures
        out.model() == JsonModel::Array(items_model(items@)),
{
    let out = Json::Array(items);
    proof {
        lemma_array_model(out);
    }
    out
}

/// The list of texts as a document.
pub open spec fn texts_model(list: Seq<String>) -> JsonModel {
    JsonModel::Array(list.map_values(|text: String| JsonModel::Text(text@)))
}

/// The list of texts as a document.
pub fn text_array(list: &Vec<String>) -> (out: Json)
    ensures
        out.model() == texts_model(list@),
{
    let mut items: Vec<Json> = Vec::new();
    let mut i: usize = 0;
    while i < list.len()
        invariant
            i <= list@.len(),
            items_model(items@) =~= list@.take(i as int).map_values(
                |text: String| JsonModel::Text(text@),
            ),
        decreases list@.len() - i,
    {
        let ghost before = items_model(items@);
        let item = Json::Text(list[i].clone());
        items.push(item);
        assert(items_model(items@) =~= before.push(item.model()));
        i = i + 1;
    }
    assert(list@.take(list@.len() as int) =~= list@);
    array(items)
}

} // verus!
