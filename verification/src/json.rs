//! JSON values as the manifest logic reads them.
//!
//! `Json` holds a JSON document as plain values; `JsonValue` is its
//! mathematical model, over which the contracts of the crate are written.
use vstd::prelude::*;

use crate::text::str_eq;

verus! {

/// The mathematical model of a JSON value.
pub enum JsonValue {
    Null,
    Bool(bool),
    Number(int),
    Str(Seq<char>),
    Array(Seq<JsonValue>),
    Object(Seq<(Seq<char>, JsonValue)>),
}

/// An integral JSON number: non-negative ones as `u64`, negative ones as `i64`.
#[derive(Debug, Clone, Copy)]
pub enum JsonNumber {
    PosInt(u64),
    NegInt(i64),
}

impl JsonNumber {
    pub open spec fn value(self) -> int {
        match self {
            JsonNumber::PosInt(u) => u as int,
            JsonNumber::NegInt(i) => i as int,
        }
    }
}

/// A JSON value. Object members keep their order; a key occurs at most once
/// in documents read from JSON text.
#[derive(Debug)]
pub enum Json {
    Null,
    Bool(bool),
    Number(JsonNumber),
    Str(String),
    Array(Vec<Json>),
    Object(Vec<(String, Json)>),
}

impl Json {
    /// The model of this value.
    pub open spec fn model(&self) -> JsonValue
        decreases self,
    {
        match self {
            Json::Null => JsonValue::Null,
            Json::Bool(b) => JsonValue::Bool(*b),
            Json::Number(n) => JsonValue::Number(n.value()),
            Json::Str(s) => JsonValue::Str(s@),
            Json::Array(items) => JsonValue::Array(
                Seq::new(
                    items@.len(),
                    |i: int|
                        if 0 <= i < items@.len() {
                            items@[i].model()
                        } else {
                            JsonValue::Null
                        },
                ),
            ),
            Json::Object(entries) => JsonValue::Object(
                Seq::new(
                    entries@.len(),
                    |i: int|
                        if 0 <= i < entries@.len() {
                            (entries@[i].0@, entries@[i].1.model())
                        } else {
                            (Seq::empty(), JsonValue::Null)
                        },
                ),
            ),
        }
    }
}

/// The models of a sequence of values.
pub open spec fn models(items: Seq<Json>) -> Seq<JsonValue> {
    Seq::new(items.len(), |i: int| items[i].model())
}

/// The models of a sequence of object members.
pub open spec fn entry_models(entries: Seq<(String, Json)>) -> Seq<(Seq<char>, JsonValue)> {
    Seq::new(entries.len(), |i: int| (entries[i].0@, entries[i].1.model()))
}

pub proof fn lemma_array_model(items: Vec<Json>)
    ensures
        Json::Array(items).model() == JsonValue::Array(models(items@)),
{
    assert(match Json::Array(items).model() {
        JsonValue::Array(s) => s =~= models(items@),
        _ => false,
    });
}

pub proof fn lemma_object_model(entries: Vec<(String, Json)>)
    ensures
        Json::Object(entries).model() == JsonValue::Object(entry_models(entries@)),
{
    assert(match Json::Object(entries).model() {
        JsonValue::Object(s) => s =~= entry_models(entries@),
        _ => false,
    });
}

/// The value of the first member named `key` at or after position `i`.
pub open spec fn entries_get_from(
    entries: Seq<(Seq<char>, JsonValue)>,
    key: Seq<char>,
    i: int,
) -> Option<JsonValue>
    decreases entries.len() - i,
{
    if i < 0 || i >= entries.len() {
        None
    } else if entries[i].0 == key {
        Some(entries[i].1)
    } else {
        entries_get_from(entries, key, i + 1)
    }
}

/// The value of the member named `key` (the first one, should there be several).
pub open spec fn entries_get(entries: Seq<(Seq<char>, JsonValue)>, key: Seq<char>) -> Option<
    JsonValue,
> {
    entries_get_from(entries, key, 0)
}

/// `v[key]`: the member `key` of an object; nothing for other values.
pub open spec fn json_get(v: JsonValue, key: Seq<char>) -> Option<JsonValue> {
    match v {
        JsonValue::Object(entries) => entries_get(entries, key),
        _ => None,
    }
}

pub open spec fn str_of(v: Option<JsonValue>) -> Option<Seq<char>> {
    match v {
        Some(JsonValue::Str(s)) => Some(s),
        _ => None,
    }
}

pub open spec fn u64_of(v: Option<JsonValue>) -> Option<u64> {
    match v {
        Some(JsonValue::Number(n)) => if 0 <= n <= u64::MAX {
            Some(n as u64)
        } else {
            None
        },
        _ => None,
    }
}

pub open spec fn array_of(v: Option<JsonValue>) -> Option<Seq<JsonValue>> {
    match v {
        Some(JsonValue::Array(items)) => Some(items),
        _ => None,
    }
}

pub open spec fn object_of(v: Option<JsonValue>) -> Option<Seq<(Seq<char>, JsonValue)>> {
    match v {
        Some(JsonValue::Object(entries)) => Some(entries),
        _ => None,
    }
}

/// `v[key]` as a string.
pub open spec fn field_str(v: JsonValue, key: Seq<char>) -> Option<Seq<char>> {
    str_of(json_get(v, key))
}

/// `v[key]` as a string, or the empty string when it is not one.
pub open spec fn field_str_or_empty(v: JsonValue, key: Seq<char>) -> Seq<char> {
    match field_str(v, key) {
        Some(s) => s,
        None => Seq::empty(),
    }
}

/// The members of an object other than those named `key`, in order.
pub open spec fn entries_without(entries: Seq<(Seq<char>, JsonValue)>, key: Seq<char>) -> Seq<
    (Seq<char>, JsonValue),
>
    decreases entries.len(),
{
    if entries.len() == 0 {
        entries
    } else {
        let rest = entries_without(entries.drop_last(), key);
        if entries.last().0 == key {
            rest
        } else {
            rest.push(entries.last())
        }
    }
}

impl Json {
    /// A member of an object by name (the first, should there be several).
    pub fn get(&self, key: &str) -> (r: Option<&Json>)
        ensures
            match r {
                Some(j) => json_get(self.model(), key@) == Some(j.model()),
                None => json_get(self.model(), key@) is None,
            },
    {
        match self {
            Json::Object(entries) => {
                proof {
                    lemma_object_model(*entries);
                }
                let ghost em = entry_models(entries@);
                let mut i: usize = 0;
                while i < entries.len()
                    invariant
                        i <= entries@.len(),
                        em == entry_models(entries@),
                        self.model() == JsonValue::Object(em),
                        entries_get(em, key@) == entries_get_from(em, key@, i as int),
                    decreases entries@.len() - i,
                {
                    if str_eq(entries[i].0.as_str(), key) {
                        return Some(&entries[i].1);
                    }
                    i = i + 1;
                }
                None
            },
            _ => None,
        }
    }

    /// The string this value holds, if it is a string.
    pub fn as_str(&self) -> (r: Option<&str>)
        ensures
            match r {
                Some(s) => self.model() == JsonValue::Str(s@),
                None => !(self.model() is Str),
            },
    {
        match self {
            Json::Str(s) => Some(s.as_str()),
            _ => None,
        }
    }

    /// The number this value holds, if it is an integer in `u64` range.
    pub fn as_u64(&self) -> (r: Option<u64>)
        ensures
            r == u64_of(Some(self.model())),
    {
        match self {
            Json::Number(JsonNumber::PosInt(u)) => Some(*u),
            Json::Number(JsonNumber::NegInt(i)) => {
                if *i >= 0 {
                    Some(*i as u64)
                } else {
                    None
                }
            },
            _ => None,
        }
    }

    /// The items of this value, if it is an array.
    pub fn as_array(&self) -> (r: Option<&Vec<Json>>)
        ensures
            match r {
                Some(items) => self.model() == JsonValue::Array(models(items@)),
                None => !(self.model() is Array),
            },
    {
        match self {
            Json::Array(items) => {
                proof {
                    lemma_array_model(*items);
                }
                Some(items)
            },
            _ => None,
        }
    }

    /// The members of this value, if it is an object.
    pub fn as_object(&self) -> (r: Option<&Vec<(String, Json)>>)
        ensures
            match r {
                Some(entries) => self.model() == JsonValue::Object(entry_models(entries@)),
                None => !(self.model() is Object),
            },
    {
        match self {
            Json::Object(entries) => {
                proof {
                    lemma_object_model(*entries);
                }
                Some(entries)
            },
            _ => None,
        }
    }

    /// A copy of this value.
    #[verifier::loop_isolation(false)]
    pub fn duplicate(&self) -> (r: Json)
        ensures
            r.model() == self.model(),
        decreases self,
    {
        match self {
            Json::Null => Json::Null,
            Json::Bool(b) => Json::Bool(*b),
            Json::Number(n) => Json::Number(*n),
            Json::Str(s) => Json::Str(s.clone()),
            Json::Array(items) => {
                let mut out: Vec<Json> = Vec::new();
                let mut i: usize = 0;
                while i < items.len()
                    invariant
                        i <= items@.len(),
                        out@.len() == i,
                        forall|k: int| 0 <= k < i ==> #[trigger] out@[k].model() == items@[k].model(),
                    decreases items@.len() - i,
                {
                    assert(decreases_to!(*self => self->Array_0));
                    assert(decreases_to!(*items => items@));
                    assert(decreases_to!(items@ => items@[i as int]));
                    assert(decreases_to!(self => items@[i as int]));
                    let c = items[i].duplicate();
                    out.push(c);
                    i = i + 1;
                }
                proof {
                    lemma_array_model(*items);
                    lemma_array_model(out);
                    assert(models(out@) =~= models(items@));
                }
                Json::Array(out)
            },
            Json::Object(entries) => {
                let mut out: Vec<(String, Json)> = Vec::new();
                let mut i: usize = 0;
                while i < entries.len()
                    invariant
                        i <= entries@.len(),
                        out@.len() == i,
                        forall|k: int|
                            0 <= k < i ==> #[trigger] out@[k].0@ == entries@[k].0@ && out@[k].1.model()
                                == entries@[k].1.model(),
                    decreases entries@.len() - i,
                {
                    assert(decreases_to!(*self => self->Object_0));
                    assert(decreases_to!(*entries => entries@));
                    assert(decreases_to!(entries@ => entries@[i as int]));
                    assert(decreases_to!(entries@[i as int] => entries@[i as int].1));
                    assert(decreases_to!(self => entries@[i as int].1));
                    let v = entries[i].1.duplicate();
                    out.push((entries[i].0.clone(), v));
                    i = i + 1;
                }
                proof {
                    lemma_object_model(*entries);
                    lemma_object_model(out);
                    assert(entry_models(out@) =~= entry_models(entries@));
                }
                Json::Object(out)
            },
        }
    }
}

/// Copies of the members of an object other than those named `key`.
pub fn entries_without_key(entries: &Vec<(String, Json)>, key: &str) -> (r: Vec<(String, Json)>)
    ensures
        entry_models(r@) == entries_without(entry_models(entries@), key@),
{
    let ghost em = entry_models(entries@);
    let mut out: Vec<(String, Json)> = Vec::new();
    let mut i: usize = 0;
    while i < entries.len()
        invariant
            i <= entries@.len(),
            em == entry_models(entries@),
            entry_models(out@) == entries_without(em.subrange(0, i as int), key@),
        decreases entries@.len() - i,
    {
        let ghost before = out@;
        assert(em.subrange(0, i + 1).drop_last() =~= em.subrange(0, i as int));
        if !str_eq(entries[i].0.as_str(), key) {
            let v = entries[i].1.duplicate();
            out.push((entries[i].0.clone(), v));
            assert(entry_models(out@) =~= entry_models(before).push(em[i as int]));
        }
        i = i + 1;
    }
    assert(em.subrange(0, entries@.len() as int) =~= em);
    out
}

/// `m[key]` when it is a string.
pub fn field_str_of<'a>(m: &'a Json, key: &str) -> (r: Option<&'a str>)
    ensures
        match r {
            Some(s) => field_str(m.model(), key@) == Some(s@),
            None => field_str(m.model(), key@) is None,
        },
{
    match m.get(key) {
        Some(v) => v.as_str(),
        None => None,
    }
}

/// `m[key]` when it is a string, else the empty string.
pub fn field_str_or_empty_of<'a>(m: &'a Json, key: &str) -> (r: &'a str)
    ensures
        r@ == field_str_or_empty(m.model(), key@),
{
    match field_str_of(m, key) {
        Some(s) => s,
        None => {
            proof {
                reveal_strlit("");
            }
            ""
        },
    }
}

} // verus!
