//! A plain model of JSON values, as the library builds and reads them.
use vstd::prelude::*;

use crate::text::owned;

verus! {

/// A JSON value. Unsigned integers are kept as such; other numbers keep
/// their decimal text.
pub enum JsonValue {
    Null,
    Bool(bool),
    UInt(u64),
    Number(String),
    Str(String),
    Array(Vec<JsonValue>),
    Object(Vec<(String, JsonValue)>),
}

/// The mathematical content of a JSON value.
pub enum Json {
    Null,
    Bool(bool),
    UInt(u64),
    Number(Seq<char>),
    Str(Seq<char>),
    Array(Seq<Json>),
    Object(Seq<(Seq<char>, Json)>),
}

impl JsonValue {
    pub open spec fn json(&self) -> Json
        decreases self,
    {
        match self {
            JsonValue::Null => Json::Null,
            JsonValue::Bool(b) => Json::Bool(*b),
            JsonValue::UInt(n) => Json::UInt(*n),
            JsonValue::Number(s) => Json::Number(s@),
            JsonValue::Str(s) => Json::Str(s@),
            JsonValue::Array(items) => Json::Array(
                Seq::new(
                    items@.len(),
                    |i: int|
                        if 0 <= i < items@.len() {
                            items@[i].json()
                        } else {
                            Json::Null
                        },
                ),
            ),
            JsonValue::Object(fields) => Json::Object(
                Seq::new(
                    fields@.len(),
                    |i: int|
                        if 0 <= i < fields@.len() {
                            (fields@[i].0@, fields@[i].1.json())
                        } else {
                            (Seq::empty(), Json::Null)
                        },
                ),
            ),
        }
    }
}


/// The content of the fields of a JSON object, in order.
pub open spec fn fields_json(fields: Seq<(String, JsonValue)>) -> Seq<(Seq<char>, Json)> {
    Seq::new(fields.len(), |i: int| (fields[i].0@, fields[i].1.json()))
}

/// The content of the items of a JSON array, in order.
pub open spec fn items_json(items: Seq<JsonValue>) -> Seq<Json> {
    Seq::new(items.len(), |i: int| items[i].json())
}

pub proof fn lemma_object_json(fields: Vec<(String, JsonValue)>)
    ensures
        JsonValue::Object(fields).json() == Json::Object(fields_json(fields@)),
{
    let v = JsonValue::Object(fields);
    let s = v.json()->Object_0;
    assert(s =~= fields_json(fields@));
}

pub proof fn lemma_array_json(items: Vec<JsonValue>)
    ensures
        JsonValue::Array(items).json() == Json::Array(items_json(items@)),
{
    let v = JsonValue::Array(items);
    let s = v.json()->Array_0;
    assert(s =~= items_json(items@));
}

/// The JSON of an optional string: the string, or `null`.
pub open spec fn opt_str_json(o: Option<String>) -> Json {
    match o {
        Some(s) => Json::Str(s@),
        None => Json::Null,
    }
}

/// The JSON of an optional value: the value, or `null`.
pub open spec fn opt_json(o: Option<JsonValue>) -> Json {
    match o {
        Some(v) => v.json(),
        None => Json::Null,
    }
}

/// The JSON of an optional number given by its decimal text.
pub open spec fn opt_number_json(o: Option<String>) -> Json {
    match o {
        Some(s) => Json::Number(s@),
        None => Json::Null,
    }
}

/// The JSON array of the given strings.
pub open spec fn str_list_json(v: Seq<String>) -> Json {
    Json::Array(Seq::new(v.len(), |i: int| Json::Str(v[i]@)))
}

impl JsonValue {
    /// A copy with the same content.
    pub fn copy(&self) -> (r: JsonValue)
        ensures
            r.json() == self.json(),
        decreases self,
    {
        match self {
            JsonValue::Null => JsonValue::Null,
            JsonValue::Bool(b) => JsonValue::Bool(*b),
            JsonValue::UInt(n) => JsonValue::UInt(*n),
            JsonValue::Number(s) => JsonValue::Number(owned(s.as_str())),
            JsonValue::Str(s) => JsonValue::Str(owned(s.as_str())),
            JsonValue::Array(items) => {
                let mut out: Vec<JsonValue> = Vec::new();
                let mut i: usize = 0;
                while i < items.len()
                    invariant
                        i <= items.len(),
                        *self == JsonValue::Array(*items),
                        items_json(out@) == items_json(items@).take(i as int),
                    decreases items.len() - i,
                {
                    proof {
                        assert(decreases_to!(*self => self->Array_0));
                        assert(decreases_to!(*items => items@));
                        assert(decreases_to!(items@ => items@[i as int]));
                        assert(decreases_to!(*self => items@[i as int]));
                    }
                    let x = items[i].copy();
                    let ghost before = out@;
                    out.push(x);
                    i = i + 1;
                    proof {
                        assert(items_json(before).len() == i - 1);
                        assert(out@.len() == i);
                        assert(out@[i - 1].json() == items@[i - 1].json());
                        assert forall|k: int| 0 <= k < i implies #[trigger] items_json(out@)[k]
                            == items_json(items@)[k] by {
                            if k < i - 1 {
                                assert(items_json(before)[k] == items_json(items@).take(i - 1)[k]);
                            }
                        }
                        assert(items_json(out@) =~= items_json(items@).take(i as int));
                    }
                }
                proof {
                    assert(items_json(items@).take(items@.len() as int) == items_json(items@));
                    lemma_array_json(out);
                    lemma_array_json(*items);
                }
                JsonValue::Array(out)
            },
            JsonValue::Object(fields) => {
                let mut out: Vec<(String, JsonValue)> = Vec::new();
                let mut i: usize = 0;
                while i < fields.len()
                    invariant
                        i <= fields.len(),
                        *self == JsonValue::Object(*fields),
                        fields_json(out@) == fields_json(fields@).take(i as int),
                    decreases fields.len() - i,
                {
                    proof {
                        assert(decreases_to!(*self => self->Object_0));
                        assert(decreases_to!(*fields => fields@));
                        assert(decreases_to!(fields@ => fields@[i as int]));
                        assert(decreases_to!(fields@[i as int] => fields@[i as int].1));
                        assert(decreases_to!(*self => fields@[i as int].1));
                    }
                    let name = owned(fields[i].0.as_str());
                    let x = fields[i].1.copy();
                    let ghost before = out@;
                    out.push((name, x));
                    i = i + 1;
                    proof {
                        assert(fields_json(before).len() == i - 1);
                        assert(out@.len() == i);
                        assert forall|k: int| 0 <= k < i implies #[trigger] fields_json(out@)[k]
                            == fields_json(fields@)[k] by {
                            if k < i - 1 {
                                assert(fields_json(before)[k] == fields_json(fields@).take(
                                    i - 1,
                                )[k]);
                            }
                        }
                        assert(fields_json(out@) =~= fields_json(fields@).take(i as int));
                    }
                }
                proof {
                    assert(fields_json(fields@).take(fields@.len() as int) == fields_json(fields@));
                    lemma_object_json(out);
                    lemma_object_json(*fields);
                }
                JsonValue::Object(out)
            },
        }
    }
}

/// The JSON string with the characters of `s`.
pub fn json_str(s: &str) -> (r: JsonValue)
    ensures
        r.json() == Json::Str(s@),
{
    JsonValue::Str(owned(s))
}

/// The JSON of an optional string.
pub fn json_opt_str(o: &Option<String>) -> (r: JsonValue)
    ensures
        r.json() == opt_str_json(*o),
{
    match o {
        Some(s) => JsonValue::Str(owned(s.as_str())),
        None => JsonValue::Null,
    }
}

/// The JSON of an optional value.
pub fn json_opt(o: &Option<JsonValue>) -> (r: JsonValue)
    ensures
        r.json() == opt_json(*o),
{
    match o {
        Some(v) => v.copy(),
        None => JsonValue::Null,
    }
}

/// The JSON of an optional number given by its decimal text.
pub fn json_opt_number(o: &Option<String>) -> (r: JsonValue)
    ensures
        r.json() == opt_number_json(*o),
{
    match o {
        Some(s) => JsonValue::Number(owned(s.as_str())),
        None => JsonValue::Null,
    }
}

/// The JSON array of the given strings.
pub fn json_str_list(v: &Vec<String>) -> (r: JsonValue)
    ensures
        r.json() == str_list_json(v@),
{
    let mut out: Vec<JsonValue> = Vec::new();
    let mut i: usize = 0;
    while i < v.len()
        invariant
            i <= v.len(),
            items_json(out@) == Seq::new(v@.len(), |k: int| Json::Str(v@[k]@)).take(i as int),
        decreases v.len() - i,
    {
        let ghost before = out@;
        out.push(JsonValue::Str(owned(v[i].as_str())));
        i = i + 1;
        proof {
            assert(items_json(before).len() == i - 1);
            assert forall|k: int| 0 <= k < i implies #[trigger] items_json(out@)[k] == Json::Str(
                v@[k]@,
            ) by {
                if k < i - 1 {
                    assert(items_json(before)[k] == Seq::new(
                        v@.len(),
                        |k: int| Json::Str(v@[k]@),
                    ).take(i - 1)[k]);
                }
            }
            assert(items_json(out@) =~= Seq::new(v@.len(), |k: int| Json::Str(v@[k]@)).take(
                i as int,
            ));
        }
    }
    proof {
        lemma_array_json(out);
        assert(Seq::new(v@.len(), |k: int| Json::Str(v@[k]@)).take(v@.len() as int) == Seq::new(
            v@.len(),
            |k: int| Json::Str(v@[k]@),
        ));
    }
    JsonValue::Array(out)
}

/// Appends a named field to the fields of a JSON object under construction.
pub fn push_field(fields: &mut Vec<(String, JsonValue)>, name: &str, value: JsonValue)
    ensures
        fields_json(final(fields)@) == fields_json(old(fields)@).push((name@, value.json())),
{
    let n = owned(name);
    fields.push((n, value));
    proof {
        assert(fields_json(fields@) =~= fields_json(old(fields)@).push((name@, value.json())));
    }
}

/// Finishes a JSON object from its fields.
pub fn object(fields: Vec<(String, JsonValue)>) -> (r: JsonValue)
    ensures
        r.json() == Json::Object(fields_json(fields@)),
{
    proof {
        lemma_object_json(fields);
    }
    JsonValue::Object(fields)
}

} // verus!
