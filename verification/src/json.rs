//! JSON values as the library reads them, and the two text forms it writes:
//! compact (one line) and pretty (two-space indented), in the layout
//! `serde_json` uses for the same value.
//!
//! Objects keep their members in order. Values that arrive from a JSON
//! document come with each key once, in key order; every lookup here takes
//! the first member with the key.
use vstd::prelude::*;
use crate::text::{chars_of, push_all, push_str, slice_chars, str_eq};

verus! {

/// A JSON value. A number is kept as the text that spells it.
#[derive(Debug)]
pub enum Json {
    Null,
    Bool(bool),
    Number(String),
    Str(String),
    Array(Vec<Json>),
    Object(Vec<(String, Json)>),
}

/// The mathematical value of a [`Json`].
#[verifier::ext_equal]
pub enum JsonV {
    Null,
    Bool(bool),
    Number(Seq<char>),
    Str(Seq<char>),
    Array(Seq<JsonV>),
    Object(Seq<(Seq<char>, JsonV)>),
}

/// The mathematical value of a [`Json`].
pub open spec fn json_view(j: Json) -> JsonV
    decreases j,
{
    match j {
        Json::Null => JsonV::Null,
        Json::Bool(b) => JsonV::Bool(b),
        Json::Number(t) => JsonV::Number(t@),
        Json::Str(s) => JsonV::Str(s@),
        Json::Array(v) => JsonV::Array(views(v@)),
        Json::Object(m) => JsonV::Object(member_views(m@)),
    }
}

/// The views of a sequence of values.
pub open spec fn views(s: Seq<Json>) -> Seq<JsonV>
    decreases s,
{
    if s.len() == 0 {
        Seq::empty()
    } else {
        views(s.drop_last()).push(json_view(s.last()))
    }
}

/// The views of a sequence of members.
pub open spec fn member_views(s: Seq<(String, Json)>) -> Seq<(Seq<char>, JsonV)>
    decreases s,
{
    if s.len() == 0 {
        Seq::empty()
    } else {
        member_views(s.drop_last()).push((s.last().0@, json_view(s.last().1)))
    }
}

pub proof fn lemma_views(s: Seq<Json>)
    ensures
        views(s).len() == s.len(),
        forall|i: int| 0 <= i < s.len() ==> #[trigger] views(s)[i] == json_view(s[i]),
    decreases s.len(),
{
    if s.len() > 0 {
        lemma_views(s.drop_last());
        assert forall|i: int| 0 <= i < s.len() implies #[trigger] views(s)[i] == json_view(s[i]) by {
            if i < s.len() - 1 {
                assert(s.drop_last()[i] == s[i]);
            }
        }
    }
}

pub proof fn lemma_member_views(s: Seq<(String, Json)>)
    ensures
        member_views(s).len() == s.len(),
        forall|i: int|
            0 <= i < s.len() ==> #[trigger] member_views(s)[i] == (s[i].0@, json_view(s[i].1)),
    decreases s.len(),
{
    if s.len() > 0 {
        lemma_member_views(s.drop_last());
        assert forall|i: int| 0 <= i < s.len() implies #[trigger] member_views(s)[i] == (
        s[i].0@, json_view(s[i].1)) by {
            if i < s.len() - 1 {
                assert(s.drop_last()[i] == s[i]);
            }
        }
    }
}

impl View for Json {
    type V = JsonV;

    open spec fn view(&self) -> JsonV {
        json_view(*self)
    }
}

/// How deeply a value nests arrays and objects.
pub open spec fn nesting(j: JsonV) -> nat
    decreases j,
{
    match j {
        JsonV::Array(v) => 1 + max_nesting(v),
        JsonV::Object(m) => 1 + max_member_nesting(m),
        _ => 0,
    }
}

pub open spec fn max_nesting(s: Seq<JsonV>) -> nat
    decreases s,
{
    if s.len() == 0 {
        0
    } else {
        let a = max_nesting(s.drop_last());
        let b = nesting(s.last());
        if a > b {
            a
        } else {
            b
        }
    }
}

pub open spec fn max_member_nesting(s: Seq<(Seq<char>, JsonV)>) -> nat
    decreases s,
{
    if s.len() == 0 {
        0
    } else {
        let a = max_member_nesting(s.drop_last());
        let b = nesting(s.last().1);
        if a > b {
            a
        } else {
            b
        }
    }
}

proof fn lemma_max_nesting(s: Seq<JsonV>, i: int)
    requires
        0 <= i < s.len(),
    ensures
        nesting(s[i]) <= max_nesting(s),
    decreases s.len(),
{
    if i < s.len() - 1 {
        assert(s.drop_last()[i] == s[i]);
        lemma_max_nesting(s.drop_last(), i);
    }
}

proof fn lemma_max_member_nesting(s: Seq<(Seq<char>, JsonV)>, i: int)
    requires
        0 <= i < s.len(),
    ensures
        nesting(s[i].1) <= max_member_nesting(s),
    decreases s.len(),
{
    if i < s.len() - 1 {
        assert(s.drop_last()[i] == s[i]);
        lemma_max_member_nesting(s.drop_last(), i);
    }
}

pub proof fn lemma_array_decreases(x: Json, i: int)
    requires
        x is Array,
        0 <= i < x->Array_0@.len(),
    ensures
        decreases_to!(x => x->Array_0@[i]),
{
    match x {
        Json::Array(v) => {
            assert(decreases_to!(x => v@[i]));
        },
        _ => {},
    }
}

pub proof fn lemma_object_decreases(x: Json, i: int)
    requires
        x is Object,
        0 <= i < x->Object_0@.len(),
    ensures
        decreases_to!(x => x->Object_0@[i].1),
{
    match x {
        Json::Object(m) => {
            assert(decreases_to!(x => m@[i].1));
        },
        _ => {},
    }
}

/// A copy of a value (`Clone`).
pub fn copy_json(j: &Json) -> (r: Json)
    ensures
        r@ == j@,
    decreases *j,
{
    match j {
        Json::Null => Json::Null,
        Json::Bool(b) => Json::Bool(*b),
        Json::Number(t) => Json::Number(t.clone()),
        Json::Str(t) => Json::Str(t.clone()),
        Json::Array(v) => {
            let mut out: Vec<Json> = Vec::new();
            let mut i: usize = 0;
            while i < v.len()
                invariant
                    *j == Json::Array(*v),
                    i <= v@.len(),
                    out@.len() == i,
                    forall|k: int| 0 <= k < i ==> (#[trigger] out@[k])@ == v@[k]@,
                decreases v@.len() - i,
            {
                proof {
                    lemma_view_array(*v);
                    lemma_array_decreases(*j, i as int);
                }
                out.push(copy_json(&v[i]));
                i = i + 1;
            }
            let r = Json::Array(out);
            proof {
                lemma_views(out@);
                lemma_views(v@);
                assert(views(out@) =~= views(v@));
            }
            r
        },
        Json::Object(m) => {
            let mut out: Vec<(String, Json)> = Vec::new();
            let mut i: usize = 0;
            while i < m.len()
                invariant
                    *j == Json::Object(*m),
                    i <= m@.len(),
                    out@.len() == i,
                    forall|k: int|
                        0 <= k < i ==> (#[trigger] out@[k]).0@ == m@[k].0@ && out@[k].1@
                            == m@[k].1@,
                decreases m@.len() - i,
            {
                proof {
                    lemma_view_object(*m);
                    lemma_object_decreases(*j, i as int);
                }
                let c = copy_json(&m[i].1);
                out.push((m[i].0.clone(), c));
                i = i + 1;
            }
            let r = Json::Object(out);
            proof {
                lemma_member_views(out@);
                lemma_member_views(m@);
                assert(member_views(out@) =~= member_views(m@));
            }
            r
        },
    }
}

pub proof fn lemma_view_array(v: Vec<Json>)
    ensures
        Json::Array(v)@ == JsonV::Array(views(v@)),
        views(v@).len() == v@.len(),
        forall|i: int| 0 <= i < v@.len() ==> #[trigger] views(v@)[i] == v@[i]@,
{
    lemma_views(v@);
}

pub proof fn lemma_view_object(m: Vec<(String, Json)>)
    ensures
        Json::Object(m)@ == JsonV::Object(member_views(m@)),
        member_views(m@).len() == m@.len(),
        forall|i: int| 0 <= i < m@.len() ==> #[trigger] member_views(m@)[i] == (m@[i].0@, m@[i].1@),
{
    lemma_member_views(m@);
}

// ---------------------------------------------------------------------------
// Reading
// ---------------------------------------------------------------------------

/// Index of the first member called `key`.
pub open spec fn find_key(m: Seq<(Seq<char>, JsonV)>, key: Seq<char>) -> Option<int>
    decreases m.len(),
{
    if m.len() == 0 {
        None
    } else if m[0].0 == key {
        Some(0)
    } else {
        match find_key(m.drop_first(), key) {
            Some(i) => Some(i + 1),
            None => None,
        }
    }
}

pub proof fn lemma_find_key(m: Seq<(Seq<char>, JsonV)>, key: Seq<char>)
    ensures
        match find_key(m, key) {
            Some(i) => 0 <= i < m.len() && m[i].0 == key && forall|j: int|
                0 <= j < i ==> (#[trigger] m[j]).0 != key,
            None => forall|j: int| 0 <= j < m.len() ==> (#[trigger] m[j]).0 != key,
        },
    decreases m.len(),
{
    if m.len() > 0 && m[0].0 != key {
        lemma_find_key(m.drop_first(), key);
        assert forall|j: int| 1 <= j < m.len() implies (#[trigger] m[j]).0 == m.drop_first()[j
            - 1].0 by {}
    }
}

/// The first member with the key is the one `find_key` names.
pub proof fn lemma_find_key_at(m: Seq<(Seq<char>, JsonV)>, key: Seq<char>, i: int)
    requires
        0 <= i < m.len(),
        m[i].0 == key,
        forall|j: int| 0 <= j < i ==> (#[trigger] m[j]).0 != key,
    ensures
        find_key(m, key) == Some(i),
    decreases i,
{
    if i > 0 {
        assert(m[0].0 != key);
        let t = m.drop_first();
        assert forall|j: int| 0 <= j < i - 1 implies (#[trigger] t[j]).0 != key by {
            assert(t[j] == m[j + 1]);
        }
        lemma_find_key_at(t, key, i - 1);
    }
}

/// The member `key` of an object; nothing for a missing key or a non-object.
pub open spec fn get_spec(j: JsonV, key: Seq<char>) -> Option<JsonV> {
    match j {
        JsonV::Object(m) => match find_key(m, key) {
            Some(i) => Some(m[i].1),
            None => None,
        },
        _ => None,
    }
}

/// The text of a string value.
pub open spec fn str_spec(j: Option<JsonV>) -> Option<Seq<char>> {
    match j {
        Some(JsonV::Str(s)) => Some(s),
        _ => None,
    }
}

/// The value of a boolean.
pub open spec fn bool_spec(j: Option<JsonV>) -> Option<bool> {
    match j {
        Some(JsonV::Bool(b)) => Some(b),
        _ => None,
    }
}

/// The items of an array.
pub open spec fn array_spec(j: Option<JsonV>) -> Option<Seq<JsonV>> {
    match j {
        Some(JsonV::Array(v)) => Some(v),
        _ => None,
    }
}

/// The members of an object.
pub open spec fn object_spec(j: Option<JsonV>) -> Option<Seq<(Seq<char>, JsonV)>> {
    match j {
        Some(JsonV::Object(m)) => Some(m),
        _ => None,
    }
}

impl Json {
    /// The member `key`, if this is an object that has one.
    pub fn get(&self, key: &str) -> (r: Option<&Json>)
        ensures
            match get_spec(self@, key@) {
                Some(v) => r is Some && r->0@ == v,
                None => r is None,
            },
    {
        match self {
            Json::Object(m) => {
                let mut i: usize = 0;
                while i < m.len()
                    invariant
                        *self == Json::Object(*m),
                        i <= m@.len(),
                        forall|j: int| 0 <= j < i ==> (#[trigger] m@[j]).0@ != key@,
                    decreases m@.len() - i,
                {
                    if str_eq(m[i].0.as_str(), key) {
                        proof {
                            lemma_view_object(*m);
                            let mv = member_views(m@);
                            assert forall|j: int| 0 <= j < i implies (#[trigger] mv[j]).0 != key@ by {
                                assert(mv[j].0 == m@[j].0@);
                            }
                            lemma_find_key_at(mv, key@, i as int);
                            assert(mv[i as int].1 == m@[i as int].1@);
                            assert(get_spec(self@, key@) == Some(mv[i as int].1));
                        }
                        return Some(&m[i].1);
                    }
                    i = i + 1;
                }
                proof {
                    lemma_view_object(*m);
                    assert forall|j: int| 0 <= j < m@.len() implies (#[trigger] member_views(
                        m@,
                    )[j]).0 != key@ by {
                        assert(member_views(m@)[j].0 == m@[j].0@);
                    }
                    lemma_find_key(member_views(m@), key@);
                }
                None
            },
            _ => None,
        }
    }

    /// The text, if this is a string.
    pub fn as_str(&self) -> (r: Option<&str>)
        ensures
            match str_spec(Some(self@)) {
                Some(s) => r is Some && r->0@ == s,
                None => r is None,
            },
    {
        match self {
            Json::Str(s) => Some(s.as_str()),
            Json::Array(v) => {
                proof {
                    lemma_view_array(*v);
                }
                None
            },
            Json::Object(m) => {
                proof {
                    lemma_view_object(*m);
                }
                None
            },
            _ => None,
        }
    }

    /// The value, if this is a boolean.
    pub fn as_bool(&self) -> (r: Option<bool>)
        ensures
            r == bool_spec(Some(self@)),
    {
        match self {
            Json::Bool(b) => Some(*b),
            Json::Array(v) => {
                proof {
                    lemma_view_array(*v);
                }
                None
            },
            Json::Object(m) => {
                proof {
                    lemma_view_object(*m);
                }
                None
            },
            _ => None,
        }
    }

    /// The items, if this is an array.
    pub fn as_array(&self) -> (r: Option<&Vec<Json>>)
        ensures
            match array_spec(Some(self@)) {
                Some(s) => r is Some && views(r->0@) == s,
                None => r is None,
            },
    {
        match self {
            Json::Array(v) => {
                proof {
                    lemma_view_array(*v);
                }
                Some(v)
            },
            Json::Object(m) => {
                proof {
                    lemma_view_object(*m);
                }
                None
            },
            _ => None,
        }
    }

    /// The members, if this is an object.
    pub fn as_object(&self) -> (r: Option<&Vec<(String, Json)>>)
        ensures
            match object_spec(Some(self@)) {
                Some(m) => r is Some && member_views(r->0@) == m,
                None => r is None,
            },
    {
        match self {
            Json::Object(m) => {
                proof {
                    lemma_view_object(*m);
                }
                Some(m)
            },
            Json::Array(v) => {
                proof {
                    lemma_view_array(*v);
                }
                None
            },
            _ => None,
        }
    }

    pub fn is_null(&self) -> (r: bool)
        ensures
            r == (self@ is Null),
    {
        match self {
            Json::Null => true,
            Json::Array(v) => {
                proof {
                    lemma_view_array(*v);
                }
                false
            },
            Json::Object(m) => {
                proof {
                    lemma_view_object(*m);
                }
                false
            },
            _ => false,
        }
    }
}

/// `value.get(key).and_then(as_str)`.
pub fn get_str<'a>(value: &'a Json, key: &str) -> (r: Option<&'a str>)
    ensures
        match str_spec(get_spec(value@, key@)) {
            Some(s) => r is Some && r->0@ == s,
            None => r is None,
        },
{
    match value.get(key) {
        Some(v) => v.as_str(),
        None => None,
    }
}

// ---------------------------------------------------------------------------
// Writing
// ---------------------------------------------------------------------------

/// The one-line text `serde_json::to_string` writes for a value. Its escapes
/// and number spelling are `serde_json`'s, so the text is only named here.
pub uninterp spec fn compact(j: JsonV) -> Seq<char>;

/// The indented text `serde_json::to_string_pretty` writes for a value; only
/// named, as [`compact`] is.
pub uninterp spec fn pretty(j: JsonV) -> Seq<char>;

/// Rewrites a [`Json`] as a `serde_json` value, node for node; a number is
/// read back from its text, and one that does not read as a number stays text.
#[verifier::external_body]
fn value_of_json(j: &Json) -> serde_json::Value {
    match j {
        Json::Null => serde_json::Value::Null,
        Json::Bool(b) => serde_json::Value::Bool(*b),
        Json::Number(t) => match t.parse::<serde_json::Number>() {
            Ok(n) => serde_json::Value::Number(n),
            Err(_) => serde_json::Value::String(t.clone()),
        },
        Json::Str(s) => serde_json::Value::String(s.clone()),
        Json::Array(a) => serde_json::Value::Array(a.iter().map(value_of_json).collect()),
        Json::Object(m) => {
            serde_json::Value::Object(m.iter().map(|(k, x)| (k.clone(), value_of_json(x))).collect())
        },
    }
}

/// `serde_json::to_string` of the value: its one-line text.
#[verifier::external_body]
pub fn to_compact(j: &Json) -> (r: Vec<char>)
    ensures
        r@ == compact(j@),
{
    serde_json::to_string(&value_of_json(j)).unwrap_or_default().chars().collect()
}

/// `serde_json::to_string_pretty` of the value: its indented text.
#[verifier::external_body]
pub fn to_pretty(j: &Json) -> (r: Vec<char>)
    ensures
        r@ == pretty(j@),
{
    serde_json::to_string_pretty(&value_of_json(j)).unwrap_or_default().chars().collect()
}

// ---------------------------------------------------------------------------
// Documents
// ---------------------------------------------------------------------------

#[verifier::external_type_specification]
#[verifier::external_body]
pub struct ExValue(serde_json::Value);

/// The value `serde_json` reads out of a document, or nothing for text it
/// rejects. JSON's grammar, number syntax and escapes are `serde_json`'s, so
/// the result is only named here.
pub uninterp spec fn parsed_json(text: Seq<char>) -> Option<JsonV>;

/// Rewrites a `serde_json` value as a [`Json`], node for node.
#[verifier::external_body]
fn json_of_value(v: serde_json::Value) -> Json {
    match v {
        serde_json::Value::Null => Json::Null,
        serde_json::Value::Bool(b) => Json::Bool(b),
        serde_json::Value::Number(n) => Json::Number(n.to_string()),
        serde_json::Value::String(s) => Json::Str(s),
        serde_json::Value::Array(a) => Json::Array(a.into_iter().map(json_of_value).collect()),
        serde_json::Value::Object(m) => Json::Object(
            m.into_iter().map(|(k, x)| (k, json_of_value(x))).collect(),
        ),
    }
}

/// `serde_json::from_str::<serde_json::Value>`: the document in `text`, or
/// nothing when it is not JSON.
#[verifier::external_body]
pub(crate) fn parse_json(text: &str) -> (r: Option<Json>)
    ensures
        match r {
            Some(j) => parsed_json(text@) == Some(j@),
            None => parsed_json(text@) is None,
        },
{
    serde_json::from_str::<serde_json::Value>(text).ok().map(json_of_value)
}

} // verus!
