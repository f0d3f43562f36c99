//! The library's own JSON value type, its mathematical model, and the trusted
//! bridge to `serde_json` for parsing text and re-encoding values.

use vstd::prelude::*;

verus! {

/// Declares `serde_json`'s value type so that the conversion functions below
/// can name it; the library never looks inside such a value.
#[verifier::external_type_specification]
#[verifier::external_body]
pub struct ExValue(serde_json::Value);

/// Mathematical model of a JSON value. Numbers carry their canonical decimal
/// text; objects are ordered sequences of key/value pairs.
pub enum JVal {
    Null,
    Bool(bool),
    Num(Seq<char>),
    Str(Seq<char>),
    Arr(Seq<JVal>),
    Obj(Seq<(Seq<char>, JVal)>),
}

/// A JSON value as the executable code holds it. A number is kept as its
/// canonical decimal rendering, which is all the pipeline ever reads of it;
/// an object keeps its fields in the order the parser handed them over.
#[derive(Debug, PartialEq)]
pub enum JsonValue {
    Null,
    Bool(bool),
    Num(String),
    Str(String),
    Arr(Vec<JsonValue>),
    Obj(Vec<(String, JsonValue)>),
}

impl View for JsonValue {
    type V = JVal;

    open spec fn view(&self) -> JVal
        decreases self,
    {
        match self {
            JsonValue::Null => JVal::Null,
            JsonValue::Bool(b) => JVal::Bool(*b),
            JsonValue::Num(s) => JVal::Num(s@),
            JsonValue::Str(s) => JVal::Str(s@),
            JsonValue::Arr(items) => JVal::Arr(view_items(items@)),
            JsonValue::Obj(fields) => JVal::Obj(view_fields(fields@)),
        }
    }
}

/// The models of a sequence of JSON values, element by element.
pub open spec fn view_items(items: Seq<JsonValue>) -> Seq<JVal>
    decreases items,
{
    if items.len() == 0 {
        Seq::empty()
    } else {
        seq![items[0]@] + view_items(items.drop_first())
    }
}

/// The models of a sequence of object fields, pair by pair.
pub open spec fn view_fields(fields: Seq<(String, JsonValue)>) -> Seq<(Seq<char>, JVal)>
    decreases fields,
{
    if fields.len() == 0 {
        Seq::empty()
    } else {
        seq![(fields[0].0@, fields[0].1@)] + view_fields(fields.drop_first())
    }
}

pub broadcast proof fn lemma_view_items_index(items: Seq<JsonValue>)
    ensures
        (#[trigger] view_items(items)).len() == items.len(),
        forall|i: int| 0 <= i < items.len() ==> view_items(items)[i] == items[i]@,
    decreases items,
{
    if items.len() > 0 {
        lemma_view_items_index(items.drop_first());
        assert(view_items(items) == seq![items[0]@] + view_items(items.drop_first()));
        assert forall|i: int| 0 <= i < items.len() implies view_items(items)[i] == items[i]@ by {
            if i > 0 {
                assert(view_items(items)[i] == view_items(items.drop_first())[i - 1]);
                assert(items.drop_first()[i - 1] == items[i]);
            }
        }
    }
}

pub broadcast proof fn lemma_view_fields_index(fields: Seq<(String, JsonValue)>)
    ensures
        (#[trigger] view_fields(fields)).len() == fields.len(),
        forall|i: int|
            0 <= i < fields.len() ==> view_fields(fields)[i] == (fields[i].0@, fields[i].1@),
    decreases fields,
{
    if fields.len() > 0 {
        lemma_view_fields_index(fields.drop_first());
        assert(view_fields(fields) == seq![(fields[0].0@, fields[0].1@)] + view_fields(
            fields.drop_first(),
        ));
        assert forall|i: int|
            0 <= i < fields.len() implies view_fields(fields)[i] == (
            fields[i].0@,
            fields[i].1@,
        ) by {
            if i > 0 {
                assert(view_fields(fields)[i] == view_fields(fields.drop_first())[i - 1]);
                assert(fields.drop_first()[i - 1] == fields[i]);
            }
        }
    }
}

impl JsonValue {
    /// A deep copy whose model is the same as this value's.
    #[verifier::loop_isolation(false)]
    pub fn duplicate(&self) -> (r: JsonValue)
        ensures
            r@ == self@,
        decreases self,
    {
        match self {
            JsonValue::Null => JsonValue::Null,
            JsonValue::Bool(b) => JsonValue::Bool(*b),
            JsonValue::Num(s) => JsonValue::Num(s.clone()),
            JsonValue::Str(s) => JsonValue::Str(s.clone()),
            JsonValue::Arr(items) => {
                let n = items.len();
                let mut out: Vec<JsonValue> = Vec::new();
                let mut i: usize = 0;
                while i < n
                    invariant
                        n == items.len(),
                        i <= n,
                        out@.len() == i,
                        forall|j: int| 0 <= j < i ==> out@[j]@ == items@[j]@,
                    decreases n - i,
                {
                    let copy = items[i].duplicate();
                    out.push(copy);
                    i = i + 1;
                }
                proof {
                    lemma_view_items_index(out@);
                    lemma_view_items_index(items@);
                    assert(view_items(out@) =~= view_items(items@));
                }
                JsonValue::Arr(out)
            },
            JsonValue::Obj(fields) => {
                let n = fields.len();
                let mut out: Vec<(String, JsonValue)> = Vec::new();
                let mut i: usize = 0;
                while i < n
                    invariant
                        n == fields.len(),
                        i <= n,
                        out@.len() == i,
                        forall|j: int|
                            0 <= j < i ==> out@[j].0@ == fields@[j].0@ && out@[j].1@
                                == fields@[j].1@,
                    decreases n - i,
                {
                    let key = fields[i].0.clone();
                    let val = fields[i].1.duplicate();
                    out.push((key, val));
                    i = i + 1;
                }
                proof {
                    lemma_view_fields_index(out@);
                    lemma_view_fields_index(fields@);
                    assert(view_fields(out@) =~= view_fields(fields@));
                }
                JsonValue::Obj(out)
            },
        }
    }
}

/// The value under `key` in an object's field list: the first match, reading
/// the fields in order.
pub open spec fn obj_lookup(fields: Seq<(Seq<char>, JVal)>, key: Seq<char>) -> Option<JVal>
    decreases fields,
{
    if fields.len() == 0 {
        None
    } else if fields[0].0 == key {
        Some(fields[0].1)
    } else {
        obj_lookup(fields.drop_first(), key)
    }
}

pub proof fn lemma_obj_lookup_hit(fields: Seq<(Seq<char>, JVal)>, key: Seq<char>, i: int)
    requires
        0 <= i < fields.len(),
        forall|j: int| 0 <= j < i ==> fields[j].0 != key,
        fields[i].0 == key,
    ensures
        obj_lookup(fields, key) == Some(fields[i].1),
    decreases i,
{
    if i > 0 {
        lemma_obj_lookup_hit(fields.drop_first(), key, i - 1);
    }
}

proof fn lemma_obj_lookup_miss(fields: Seq<(Seq<char>, JVal)>, key: Seq<char>)
    requires
        forall|j: int| 0 <= j < fields.len() ==> fields[j].0 != key,
    ensures
        obj_lookup(fields, key) is None,
    decreases fields,
{
    if fields.len() > 0 {
        lemma_obj_lookup_miss(fields.drop_first(), key);
    }
}

/// Looks `key` up in an object's field list, first match wins.
pub fn obj_get<'a>(fields: &'a Vec<(String, JsonValue)>, key: &str) -> (r: Option<&'a JsonValue>)
    ensures
        match r {
            Some(v) => obj_lookup(view_fields(fields@), key@) == Some(v@),
            None => obj_lookup(view_fields(fields@), key@) is None,
        },
{
    proof {
        lemma_view_fields_index(fields@);
    }
    let k: String = key.to_owned();
    let n = fields.len();
    let mut i: usize = 0;
    while i < n
        invariant
            n == fields.len(),
            i <= n,
            k@ == key@,
            forall|j: int| 0 <= j < i ==> view_fields(fields@)[j].0 != key@,
            view_fields(fields@).len() == fields@.len(),
            forall|j: int|
                0 <= j < fields@.len() ==> view_fields(fields@)[j] == (
                    fields@[j].0@,
                    fields@[j].1@,
                ),
        decreases n - i,
    {
        if fields[i].0.eq(&k) {
            proof {
                lemma_obj_lookup_hit(view_fields(fields@), key@, i as int);
            }
            return Some(&fields[i].1);
        }
        i = i + 1;
    }
    proof {
        lemma_obj_lookup_miss(view_fields(fields@), key@);
    }
    None
}

/// What `serde_json::from_str` makes of a piece of text, carried over into
/// the library's model: the parsed value, or nothing where the text is not
/// well-formed JSON.
pub uninterp spec fn json_of(s: Seq<char>) -> Option<JVal>;

/// What `serde_json::to_string` makes of the `serde_json` value standing for
/// a value of the library's model.
pub uninterp spec fn json_text_of(v: JVal) -> Seq<char>;

/// Converts a `serde_json` value into the library's own value, variant by
/// variant; a number becomes its canonical decimal rendering.
#[verifier::external_body]
fn from_serde(v: serde_json::Value) -> JsonValue {
    match v {
        serde_json::Value::Null => JsonValue::Null,
        serde_json::Value::Bool(b) => JsonValue::Bool(b),
        serde_json::Value::Number(n) => JsonValue::Num(n.to_string()),
        serde_json::Value::String(s) => JsonValue::Str(s),
        serde_json::Value::Array(a) => JsonValue::Arr(a.into_iter().map(from_serde).collect()),
        serde_json::Value::Object(o) => JsonValue::Obj(
            o.into_iter().map(|p| (p.0, from_serde(p.1))).collect(),
        ),
    }
}

/// Converts a library value back into a `serde_json` value, variant by
/// variant; a number is re-read from its decimal rendering.
#[verifier::external_body]
fn to_serde(v: &JsonValue) -> serde_json::Value {
    match v {
        JsonValue::Null => serde_json::Value::Null,
        JsonValue::Bool(b) => serde_json::Value::Bool(*b),
        JsonValue::Num(s) => match s.parse::<serde_json::Number>() {
            Ok(n) => serde_json::Value::Number(n),
            Err(_) => serde_json::Value::Null,
        },
        JsonValue::Str(s) => serde_json::Value::String(s.clone()),
        JsonValue::Arr(a) => serde_json::Value::Array(a.iter().map(to_serde).collect()),
        JsonValue::Obj(f) => serde_json::Value::Object(
            f.iter().map(|p| (p.0.clone(), to_serde(&p.1))).collect(),
        ),
    }
}

/// Relies on `serde_json::from_str`: whether text parses, and to what value,
/// depends on the characters alone.
#[verifier::external_body]
pub(crate) fn parse_json(s: &str) -> (r: Option<JsonValue>)
    ensures
        match r {
            Some(v) => json_of(s@) == Some(v@),
            None => json_of(s@) is None,
        },
{
    match serde_json::from_str::<serde_json::Value>(s) {
        Ok(v) => Some(from_serde(v)),
        Err(_) => None,
    }
}

/// Relies on `serde_json::to_string`: the rendering of a value depends on the
/// value alone.
#[verifier::external_body]
pub(crate) fn json_to_string(v: &JsonValue) -> (r: String)
    ensures
        r@ == json_text_of(v@),
{
    serde_json::to_string(&to_serde(v)).unwrap_or_default()
}

} // verus!
