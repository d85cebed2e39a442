//! A tree model of JSON documents.
//!
//! Outbound payloads and the columns of an event row are JSON trees.  The
//! executable [`JsonValue`] mirrors the wire format (numbers are restricted
//! to integers, which is all the domain stores in them); the ghost
//! [`JsonModel`] is its deep mathematical view, used by every contract that
//! speaks about payloads.

use vstd::prelude::*;

verus! {

/// Mathematical form of a JSON document, used in contracts.
pub enum JsonModel {
    Null,
    Bool(bool),
    Int(int),
    Str(Seq<char>),
    Arr(Seq<JsonModel>),
    Obj(Seq<(Seq<char>, JsonModel)>),
}

/// An executable JSON document.
///
/// Objects keep their fields in insertion order; duplicate keys are not
/// rejected by the type itself (documents arriving from outside may hold
/// them), and every operation in this crate treats each field independently.
#[derive(Debug, PartialEq)]
pub enum JsonValue {
    Null,
    Bool(bool),
    Int(i64),
    Str(String),
    Arr(Vec<JsonValue>),
    Obj(Vec<(String, JsonValue)>),
}

/// The deep view of an executable document.
pub open spec fn json_model(v: JsonValue) -> JsonModel
    decreases v,
{
    match v {
        JsonValue::Null => JsonModel::Null,
        JsonValue::Bool(b) => JsonModel::Bool(b),
        JsonValue::Int(n) => JsonModel::Int(n as int),
        JsonValue::Str(s) => JsonModel::Str(s@),
        JsonValue::Arr(items) => JsonModel::Arr(json_model_seq(items@)),
        JsonValue::Obj(entries) => JsonModel::Obj(json_model_entries(entries@)),
    }
}

/// Deep views of the elements of an array, in order.
pub open spec fn json_model_seq(s: Seq<JsonValue>) -> Seq<JsonModel>
    decreases s,
{
    if s.len() == 0 {
        Seq::empty()
    } else {
        seq![json_model(s[0])] + json_model_seq(s.drop_first())
    }
}

/// Deep views of the fields of an object, in order.
pub open spec fn json_model_entries(s: Seq<(String, JsonValue)>) -> Seq<(Seq<char>, JsonModel)>
    decreases s,
{
    if s.len() == 0 {
        Seq::empty()
    } else {
        seq![(s[0].0@, json_model(s[0].1))] + json_model_entries(s.drop_first())
    }
}

/// How an array's view relates to the views of its elements.
pub proof fn lemma_json_model_seq(s: Seq<JsonValue>)
    ensures
        json_model_seq(s).len() == s.len(),
        forall|i: int| 0 <= i < s.len() ==> json_model_seq(s)[i] == json_model(s[i]),
    decreases s.len(),
{
    if s.len() > 0 {
        lemma_json_model_seq(s.drop_first());
    }
}

/// How an object's view relates to the views of its fields.
pub proof fn lemma_json_model_entries(s: Seq<(String, JsonValue)>)
    ensures
        json_model_entries(s).len() == s.len(),
        forall|i: int| 0 <= i < s.len() ==> json_model_entries(s)[i] == (
            s[i].0@,
            json_model(s[i].1),
        ),
    decreases s.len(),
{
    if s.len() > 0 {
        lemma_json_model_entries(s.drop_first());
    }
}

impl View for JsonValue {
    type V = JsonModel;

    open spec fn view(&self) -> JsonModel {
        json_model(*self)
    }
}

impl DeepView for JsonValue {
    type V = JsonModel;

    open spec fn deep_view(&self) -> JsonModel {
        json_model(*self)
    }
}

/// Structural copy of a document.
#[verifier::loop_isolation(false)]
pub fn clone_json(v: &JsonValue) -> (r: JsonValue)
    ensures
        r@ == v@,
    decreases *v,
{
    match v {
        JsonValue::Null => JsonValue::Null,
        JsonValue::Bool(b) => JsonValue::Bool(*b),
        JsonValue::Int(n) => JsonValue::Int(*n),
        JsonValue::Str(s) => JsonValue::Str(s.clone()),
        JsonValue::Arr(items) => {
            let mut out: Vec<JsonValue> = Vec::new();
            let mut i: usize = 0;
            while i < items.len()
                invariant
                    i <= items@.len(),
                    out@.len() == i as int,
                    forall|j: int| 0 <= j < i as int ==> out@[j]@ == items@[j]@,
                decreases items@.len() - i,
            {
                out.push(clone_json(&items[i]));
                i += 1;
            }
            proof {
                lemma_json_model_seq(out@);
                lemma_json_model_seq(items@);
                assert(json_model_seq(out@) =~= json_model_seq(items@));
            }
            JsonValue::Arr(out)
        },
        JsonValue::Obj(entries) => {
            let mut out: Vec<(String, JsonValue)> = Vec::new();
            let mut i: usize = 0;
            while i < entries.len()
                invariant
                    i <= entries@.len(),
                    out@.len() == i as int,
                    forall|j: int| 0 <= j < i as int ==> out@[j].0@ == entries@[j].0@
                        && out@[j].1@ == entries@[j].1@,
                decreases entries@.len() - i,
            {
                let key = entries[i].0.clone();
                let value = clone_json(&entries[i].1);
                out.push((key, value));
                i += 1;
            }
            proof {
                lemma_json_model_entries(out@);
                lemma_json_model_entries(entries@);
                assert(json_model_entries(out@) =~= json_model_entries(entries@));
            }
            JsonValue::Obj(out)
        },
    }
}

impl Clone for JsonValue {
    fn clone(&self) -> (r: Self)
        ensures
            r@ == self@,
    {
        clone_json(self)
    }
}

} // verus!
