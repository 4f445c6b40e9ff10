//! A JSON document model that the verified logic reads and builds.
use vstd::prelude::*;

verus! {

/// A JSON value. Numbers keep the decimal text that `serde_json` prints for them.
#[derive(Debug, PartialEq, Eq)]
pub enum JsonValue {
    Null,
    Bool(bool),
    Number(String),
    Str(String),
    Array(Vec<JsonValue>),
    Object(Vec<(String, JsonValue)>),
}

/// The mathematical value of a [`JsonValue`].
pub enum JsonSpec {
    Null,
    Bool(bool),
    Number(Seq<char>),
    Str(Seq<char>),
    Array(Seq<JsonSpec>),
    Object(Seq<(Seq<char>, JsonSpec)>),
}

pub open spec fn json_view(v: JsonValue) -> JsonSpec
    decreases v,
{
    match v {
        JsonValue::Null => JsonSpec::Null,
        JsonValue::Bool(b) => JsonSpec::Bool(b),
        JsonValue::Number(n) => JsonSpec::Number(n@),
        JsonValue::Str(s) => JsonSpec::Str(s@),
        JsonValue::Array(a) => JsonSpec::Array(
            Seq::new(a@.len(), |i: int| if 0 <= i < a@.len() { json_view(a@[i]) } else { JsonSpec::Null }),
        ),
        JsonValue::Object(o) => JsonSpec::Object(
            Seq::new(o@.len(), |i: int| if 0 <= i < o@.len() { (o@[i].0@, json_view(o@[i].1)) } else { (Seq::empty(), JsonSpec::Null) }),
        ),
    }
}

impl View for JsonValue {
    type V = JsonSpec;

    open spec fn view(&self) -> JsonSpec {
        json_view(*self)
    }
}

impl Clone for JsonValue {
    fn clone(&self) -> (r: Self)
        ensures
            r@ == self@,
    {
        self.deep_clone()
    }
}

/// The view of an optional JSON value.
pub open spec fn opt_json(v: Option<JsonValue>) -> Option<JsonSpec> {
    match v {
        Some(x) => Some(x@),
        None => None,
    }
}

/// The view of an optional borrowed JSON value.
pub open spec fn opt_json_ref(v: Option<&JsonValue>) -> Option<JsonSpec> {
    match v {
        Some(x) => Some(x@),
        None => None,
    }
}

/// The value stored under `key` among object entries: the first entry with that key.
pub open spec fn entries_get(e: Seq<(Seq<char>, JsonSpec)>, key: Seq<char>) -> Option<JsonSpec>
    decreases e.len(),
{
    if e.len() == 0 {
        None
    } else if e[0].0 == key {
        Some(e[0].1)
    } else {
        entries_get(e.subrange(1, e.len() as int), key)
    }
}

impl JsonSpec {
    /// `value.get(key)` of `serde_json`: the member `key` of an object, `None` otherwise.
    pub open spec fn get(self, key: Seq<char>) -> Option<JsonSpec> {
        match self {
            JsonSpec::Object(e) => entries_get(e, key),
            _ => None,
        }
    }

    pub open spec fn is_object(self) -> bool {
        self is Object
    }

    /// `value.as_str()`: the text of a string value.
    pub open spec fn as_str(self) -> Option<Seq<char>> {
        match self {
            JsonSpec::Str(s) => Some(s),
            _ => None,
        }
    }

    /// `value.as_bool()`: the boolean of a boolean value.
    pub open spec fn as_bool(self) -> Option<bool> {
        match self {
            JsonSpec::Bool(b) => Some(b),
            _ => None,
        }
    }

    /// The member `key` read as text: `get(key).and_then(as_str)`.
    pub open spec fn get_str(self, key: Seq<char>) -> Option<Seq<char>> {
        match self.get(key) {
            Some(v) => v.as_str(),
            None => None,
        }
    }
}

proof fn lemma_entries_get_skip(e: Seq<(Seq<char>, JsonSpec)>, key: Seq<char>, i: int)
    requires
        0 <= i < e.len(),
        e[i].0 != key,
    ensures
        entries_get(e.subrange(i, e.len() as int), key) == entries_get(e.subrange(i + 1, e.len() as int), key),
{
    assert(e.subrange(i, e.len() as int).subrange(1, e.len() - i) =~= e.subrange(i + 1, e.len() as int));
}

impl JsonValue {
    /// A copy of this value.
    pub fn deep_clone(&self) -> (r: JsonValue)
        ensures
            r@ == self@,
        decreases self,
    {
        match self {
            JsonValue::Null => JsonValue::Null,
            JsonValue::Bool(b) => JsonValue::Bool(*b),
            JsonValue::Number(n) => JsonValue::Number(n.clone()),
            JsonValue::Str(s) => JsonValue::Str(s.clone()),
            JsonValue::Array(a) => {
                let mut out: Vec<JsonValue> = Vec::new();
                let mut i: usize = 0;
                while i < a.len()
                    invariant
                        i <= a@.len(),
                        out@.len() == i,
                        *self == JsonValue::Array(*a),
                        forall|j: int| 0 <= j < i ==> json_view(#[trigger] out@[j]) == json_view(a@[j]),
                    decreases a.len() - i,
                {
                    proof {
                        assert(decreases_to!(*self => (*self)->Array_0));
                        assert(decreases_to!((*self)->Array_0 => (*self)->Array_0[i as int]));
                    }
                    let c = a[i].deep_clone();
                    out.push(c);
                    i = i + 1;
                }
                let r = JsonValue::Array(out);
                assert(json_view(r) == json_view(*self)) by {
                    if let JsonSpec::Array(x) = json_view(r) {
                        if let JsonSpec::Array(y) = json_view(*self) {
                            assert(x =~= y);
                        }
                    }
                }
                r
            },
            JsonValue::Object(o) => {
                let mut out: Vec<(String, JsonValue)> = Vec::new();
                let mut i: usize = 0;
                while i < o.len()
                    invariant
                        i <= o@.len(),
                        out@.len() == i,
                        *self == JsonValue::Object(*o),
                        forall|j: int| 0 <= j < i ==> (#[trigger] out@[j]).0@ == o@[j].0@ && json_view(out@[j].1) == json_view(o@[j].1),
                    decreases o.len() - i,
                {
                    let k = o[i].0.clone();
                    proof {
                        assert(decreases_to!(*self => (*self)->Object_0));
                        assert(decreases_to!((*self)->Object_0 => (*self)->Object_0[i as int]));
                        assert(decreases_to!((*self)->Object_0[i as int] => (*self)->Object_0[i as int].1));
                    }
                    let v = o[i].1.deep_clone();
                    out.push((k, v));
                    i = i + 1;
                }
                let r = JsonValue::Object(out);
                assert(json_view(r) == json_view(*self)) by {
                    if let JsonSpec::Object(x) = json_view(r) {
                        if let JsonSpec::Object(y) = json_view(*self) {
                            assert(x =~= y);
                        }
                    }
                }
                r
            },
        }
    }

    /// The member `key` of an object value (`serde_json::Value::get`).
    pub fn get(&self, key: &str) -> (r: Option<&JsonValue>)
        ensures
            opt_json_ref(r) == self@.get(key@),
    {
        match self {
            JsonValue::Object(o) => {
                proof { lemma_object_view(*o); }
                entries_lookup(o, key)
            },
            _ => None,
        }
    }

    /// The text of a string value (`serde_json::Value::as_str`).
    pub fn as_str(&self) -> (r: Option<&str>)
        ensures
            match r {
                Some(s) => self@.as_str() == Some(s@),
                None => self@.as_str() is None,
            },
    {
        match self {
            JsonValue::Str(s) => Some(s.as_str()),
            _ => None,
        }
    }

    pub fn is_object(&self) -> (r: bool)
        ensures
            r == self@.is_object(),
    {
        match self {
            JsonValue::Object(_) => true,
            _ => false,
        }
    }
}

/// The view of object entries.
pub open spec fn entries_view(o: Seq<(String, JsonValue)>) -> Seq<(Seq<char>, JsonSpec)> {
    Seq::new(o.len(), |i: int| (o[i].0@, o[i].1@))
}

pub proof fn lemma_object_view(o: Vec<(String, JsonValue)>)
    ensures
        JsonValue::Object(o)@ == JsonSpec::Object(entries_view(o@)),
{
    assert(entries_view(o@) =~= match JsonValue::Object(o)@ {
        JsonSpec::Object(e) => e,
        _ => Seq::empty(),
    });
}

/// The member `key` among object entries.
pub fn entries_lookup<'a>(o: &'a Vec<(String, JsonValue)>, key: &str) -> (r: Option<&'a JsonValue>)
    ensures
        opt_json_ref(r) == entries_get(entries_view(o@), key@),
{
    let ghost e = entries_view(o@);
    assert(e.subrange(0, e.len() as int) =~= e);
    let mut i: usize = 0;
    while i < o.len()
        invariant
            i <= o@.len(),
            e == entries_view(o@),
            entries_get(e, key@) == entries_get(e.subrange(i as int, e.len() as int), key@),
        decreases o.len() - i,
    {
        if crate::text::str_equal(o[i].0.as_str(), key) {
            assert(e.subrange(i as int, e.len() as int)[0] == e[i as int]);
            return Some(&o[i].1);
        }
        proof { lemma_entries_get_skip(e, key@, i as int); }
        i = i + 1;
    }
    None
}

#[verifier::external_type_specification]
#[verifier::external_body]
pub struct ExSerdeJsonValue(serde_json::Value);

/// What `serde_json::from_str::<serde_json::Value>` makes of a text, as a [`JsonSpec`]:
/// `None` where the text is not one JSON document.
pub uninterp spec fn spec_parse_json(text: Seq<char>) -> Option<JsonSpec>;

/// The compact text that `serde_json` prints for a value (`Value::to_string`).
pub uninterp spec fn spec_json_text(value: JsonSpec) -> Seq<char>;

/// Moves a `serde_json::Value` into a [`JsonValue`], variant by variant.
#[verifier::external_body]
fn from_serde(v: serde_json::Value) -> JsonValue {
    match v {
        serde_json::Value::Null => JsonValue::Null,
        serde_json::Value::Bool(b) => JsonValue::Bool(b),
        serde_json::Value::Number(n) => JsonValue::Number(n.to_string()),
        serde_json::Value::String(s) => JsonValue::Str(s),
        serde_json::Value::Array(a) => JsonValue::Array(a.into_iter().map(from_serde).collect()),
        serde_json::Value::Object(m) => JsonValue::Object(m.into_iter().map(|(k, x)| (k, from_serde(x))).collect()),
    }
}

/// Copies a [`JsonValue`] into a `serde_json::Value`, variant by variant.
#[verifier::external_body]
fn to_serde(v: &JsonValue) -> serde_json::Value {
    match v {
        JsonValue::Null => serde_json::Value::Null,
        JsonValue::Bool(b) => serde_json::Value::Bool(*b),
        JsonValue::Number(n) => match n.parse::<serde_json::Number>() {
            Ok(x) => serde_json::Value::Number(x),
            Err(_) => serde_json::Value::String(n.clone()),
        },
        JsonValue::Str(s) => serde_json::Value::String(s.clone()),
        JsonValue::Array(a) => serde_json::Value::Array(a.iter().map(to_serde).collect()),
        JsonValue::Object(o) => serde_json::Value::Object(o.iter().map(|(k, x)| (k.clone(), to_serde(x))).collect()),
    }
}

/// Parses a JSON text with `serde_json::from_str`; `None` where `serde_json` refuses it.
#[verifier::external_body]
pub(crate) fn parse_json(text: &str) -> (r: Option<JsonValue>)
    ensures
        opt_json(r) == spec_parse_json(text@),
{
    serde_json::from_str::<serde_json::Value>(text).ok().map(from_serde)
}

/// Prints a value as compact JSON text with `serde_json` (`Value::to_string`).
#[verifier::external_body]
pub(crate) fn json_text(v: &JsonValue) -> (r: String)
    ensures
        r@ == spec_json_text(v@),
{
    to_serde(v).to_string()
}

} // verus!
