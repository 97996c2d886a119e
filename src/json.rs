//! JSON values as the handlers receive and return them.
use vstd::prelude::*;

verus! {

/// The mathematical meaning of a [`JsonValue`].
pub enum JsonModel {
    Null,
    Bool(bool),
    Int(int),
    Fractional(Seq<char>),
    Str(Seq<char>),
    Array(Seq<JsonModel>),
    Object(Seq<(Seq<char>, JsonModel)>),
}

/// A JSON document. Integers are held exactly; a number with a fraction or an
/// exponent is held as its text, since nothing here computes with it. An
/// object keeps its members in order.
#[derive(Debug, PartialEq, Eq)]
pub enum JsonValue {
    Null,
    Bool(bool),
    Int(i128),
    Fractional(String),
    Str(String),
    Array(Vec<JsonValue>),
    Object(Vec<(String, JsonValue)>),
}

impl View for JsonValue {
    type V = JsonModel;

    open spec fn view(&self) -> JsonModel
        decreases self,
    {
        match self {
            JsonValue::Null => JsonModel::Null,
            JsonValue::Bool(b) => JsonModel::Bool(*b),
            JsonValue::Int(n) => JsonModel::Int(*n as int),
            JsonValue::Fractional(s) => JsonModel::Fractional(s@),
            JsonValue::Str(s) => JsonModel::Str(s@),
            JsonValue::Array(items) => JsonModel::Array(
                Seq::new(
                    items.len() as nat,
                    |i: int|
                        if 0 <= i < items.len() {
                            items[i].view()
                        } else {
                            JsonModel::Null
                        },
                ),
            ),
            JsonValue::Object(members) => JsonModel::Object(
                Seq::new(
                    members.len() as nat,
                    |i: int|
                        (
                            members[i].0@,
                            if 0 <= i < members.len() {
                                members[i].1.view()
                            } else {
                                JsonModel::Null
                            },
                        ),
                ),
            ),
        }
    }
}

/// The object without members, `{}`.
pub open spec fn empty_object_model() -> JsonModel {
    JsonModel::Object(Seq::empty())
}

/// An array without elements, `[]`.
pub open spec fn empty_array_model() -> JsonModel {
    JsonModel::Array(Seq::empty())
}

impl JsonValue {
    /// Builds `{}`.
    pub fn empty_object() -> (r: JsonValue)
        ensures
            r@ == empty_object_model(),
    {
        let r = JsonValue::Object(Vec::new());
        assert(r@->Object_0 =~= Seq::empty());
        r
    }

    /// Builds `[]`.
    pub fn empty_array() -> (r: JsonValue)
        ensures
            r@ == empty_array_model(),
    {
        let r = JsonValue::Array(Vec::new());
        assert(r@->Array_0 =~= Seq::empty());
        r
    }
}

} // verus!
