//! API reference: the server's own OpenAPI document read into a sorted list
//! of endpoints, each with copyable recipes for whoever writes a client
//! against it.
use vstd::prelude::*;
use crate::json::{
    array_spec, bool_spec, compact, get_spec, get_str, lemma_view_array, lemma_view_object,
    member_views, object_spec, pretty, str_spec, to_compact, to_pretty, views, Json, JsonV,
};
use crate::text::{
    chars_of, contains_chars, contains_seq, is_blank, lowercase, push_all, push_str, split_char,
    split_chars, char_views, str_eq, string_of, to_lowercase, to_uppercase, uppercase,
};

verus! {

/// Which language the quickstart shows.
#[derive(Debug, Clone, Copy, PartialEq, Eq, Structural)]
pub enum Snippet {
    Curl,
    Python,
    OpenAi,
}

impl Snippet {
    pub open spec fn label_spec(self) -> Seq<char> {
        match self {
            Snippet::Curl => "curl"@,
            Snippet::Python => "Python"@,
            Snippet::OpenAi => "OpenAI SDK"@,
        }
    }

    pub fn label(self) -> (r: &'static str)
        ensures
            r@ == self.label_spec(),
    {
        match self {
            Snippet::Curl => "curl",
            Snippet::Python => "Python",
            Snippet::OpenAi => "OpenAI SDK",
        }
    }
}

/// How a method's badge is coloured, in the order a reader scans: safe,
/// creating, changing, destroying.
#[derive(Debug, Clone, Copy, PartialEq, Eq, Structural)]
pub enum Tone {
    Info,
    Success,
    Warning,
    Danger,
    Neutral,
}

pub open spec fn method_tone_spec(method: Seq<char>) -> Tone {
    if method == "GET"@ {
        Tone::Info
    } else if method == "POST"@ {
        Tone::Success
    } else if method == "PUT"@ || method == "PATCH"@ {
        Tone::Warning
    } else if method == "DELETE"@ {
        Tone::Danger
    } else {
        Tone::Neutral
    }
}

pub fn method_tone(method: &str) -> (r: Tone)
    ensures
        r == method_tone_spec(method@),
{
    if str_eq(method, "GET") {
        Tone::Info
    } else if str_eq(method, "POST") {
        Tone::Success
    } else if str_eq(method, "PUT") || str_eq(method, "PATCH") {
        Tone::Warning
    } else if str_eq(method, "DELETE") {
        Tone::Danger
    } else {
        Tone::Neutral
    }
}

/// One parameter of an operation. Header parameters every route inherits
/// are dropped when the document is read.
#[derive(Debug, Clone)]
pub struct Param {
    pub name: String,
    /// `path` or `query`.
    pub location: String,
    pub required: bool,
    pub kind: String,
}

/// One operation of the API.
#[derive(Debug, Clone)]
pub struct Endpoint {
    pub method: String,
    pub path: String,
    pub tag: String,
    pub summary: String,
    pub description: String,
    pub params: Vec<Param>,
    /// Request body skeleton, pretty-printed, built from the declared schema.
    pub body: Option<String>,
    /// The same value on one line, for a curl that survives being pasted
    /// into a shell prompt.
    pub body_compact: Option<String>,
    pub auth: bool,
}

/// The mathematical value of a [`Param`]: name, location, required, type.
pub type ParamV = (Seq<char>, Seq<char>, bool, Seq<char>);

pub open spec fn param_view(p: Param) -> ParamV {
    (p.name@, p.location@, p.required, p.kind@)
}

pub open spec fn param_views(s: Seq<Param>) -> Seq<ParamV> {
    s.map_values(|p: Param| param_view(p))
}

pub open spec fn opt_text(o: Option<String>) -> Option<Seq<char>> {
    match o {
        Some(t) => Some(t@),
        None => None,
    }
}

/// The mathematical value of an [`Endpoint`].
pub struct EndpointV {
    pub method: Seq<char>,
    pub path: Seq<char>,
    pub tag: Seq<char>,
    pub summary: Seq<char>,
    pub description: Seq<char>,
    pub params: Seq<ParamV>,
    pub body: Option<Seq<char>>,
    pub body_compact: Option<Seq<char>>,
    pub auth: bool,
}

impl View for Endpoint {
    type V = EndpointV;

    open spec fn view(&self) -> EndpointV {
        EndpointV {
            method: self.method@,
            path: self.path@,
            tag: self.tag@,
            summary: self.summary@,
            description: self.description@,
            params: param_views(self.params@),
            body: opt_text(self.body),
            body_compact: opt_text(self.body_compact),
            auth: self.auth,
        }
    }
}

/// Whether a filter is met: the empty filter always is; otherwise the
/// lower-cased filter occurs in the lower-cased path, summary, tag or method.
pub open spec fn matches_spec(e: EndpointV, needle: Seq<char>) -> bool {
    if needle.len() == 0 {
        true
    } else {
        let n = lowercase(needle);
        contains_seq(lowercase(e.path), n) || contains_seq(lowercase(e.summary), n)
            || contains_seq(lowercase(e.tag), n) || contains_seq(lowercase(e.method), n)
    }
}

/// The required query parameters, each as `name=<name>`, joined with `&`.
pub open spec fn query_spec(ps: Seq<ParamV>) -> Seq<char>
    decreases ps.len(),
{
    if ps.len() == 0 {
        Seq::empty()
    } else {
        let rest = query_spec(ps.drop_last());
        let p = ps.last();
        if p.1 == "query"@ && p.2 {
            let item = p.0 + "=<"@ + p.0 + ">"@;
            if rest.len() == 0 {
                item
            } else {
                rest + "&"@ + item
            }
        } else {
            rest
        }
    }
}

/// A runnable one-liner for the endpoint: the method when it is not `GET`,
/// the quoted URL with any required query parameters spelled out, the bearer
/// header unless the route is open (the key, or `<key>` when there is none),
/// and the compact body.
pub open spec fn curl_spec(e: EndpointV, origin: Seq<char>, key: Seq<char>) -> Seq<char> {
    let q = query_spec(e.params);
    let head = "curl "@ + if e.method == "GET"@ {
        Seq::empty()
    } else {
        "-X "@ + e.method + " "@
    };
    let url = "\""@ + origin + e.path + if q.len() == 0 {
        Seq::empty()
    } else {
        "?"@ + q
    } + "\""@;
    let auth = if e.auth {
        " -H \"Authorization: Bearer "@ + if key.len() == 0 {
            "<key>"@
        } else {
            key
        } + "\""@
    } else {
        Seq::empty()
    };
    let body = match e.body_compact {
        Some(b) => " -H \"Content-Type: application/json\" -d '"@ + b + "'"@,
        None => Seq::empty(),
    };
    head + url + auth + body
}

impl Endpoint {
    /// Stable key for the copy buttons and the expanded row.
    pub fn id(&self) -> (r: String)
        ensures
            r@ == self.method@ + " "@ + self.path@,
    {
        let mut out: Vec<char> = Vec::new();
        push_str(&mut out, self.method.as_str());
        push_str(&mut out, " ");
        push_str(&mut out, self.path.as_str());
        string_of(&out)
    }

    /// Whether the endpoint answers the filter a reader typed.
    pub fn matches(&self, needle: &str) -> (r: bool)
        ensures
            r == matches_spec(self@, needle@),
    {
        if chars_of(needle).len() == 0 {
            return true;
        }
        let n = chars_of(to_lowercase(needle).as_str());
        contains_chars(&chars_of(to_lowercase(self.path.as_str()).as_str()), &n) || contains_chars(
            &chars_of(to_lowercase(self.summary.as_str()).as_str()),
            &n,
        ) || contains_chars(&chars_of(to_lowercase(self.tag.as_str()).as_str()), &n)
            || contains_chars(&chars_of(to_lowercase(self.method.as_str()).as_str()), &n)
    }

    /// A runnable one-liner. Single line on purpose: a `\`-continued command
    /// is a bash-ism, and this app's own host pastes it into PowerShell.
    pub fn curl(&self, origin: &str, key: &str) -> (r: String)
        ensures
            r@ == curl_spec(self@, origin@, key@),
    {
        let mut out = curl_head(self.method.as_str());
        let q = query_of(&self.params);
        let url = curl_url(origin, self.path.as_str(), &q);
        let auth = curl_auth(self.auth, key);
        let body = curl_body(&self.body_compact);
        push_all(&mut out, &url);
        push_all(&mut out, &auth);
        push_all(&mut out, &body);
        string_of(&out)
    }
}

fn curl_head(method: &str) -> (r: Vec<char>)
    ensures
        r@ == "curl "@ + if method@ == "GET"@ {
            Seq::empty()
        } else {
            "-X "@ + method@ + " "@
        },
{
    let mut out: Vec<char> = Vec::new();
    push_str(&mut out, "curl ");
    if !str_eq(method, "GET") {
        push_str(&mut out, "-X ");
        push_str(&mut out, method);
        push_str(&mut out, " ");
        assert(out@ =~= "curl "@ + ("-X "@ + method@ + " "@));
    } else {
        assert(out@ =~= "curl "@ + Seq::<char>::empty());
    }
    out
}

fn curl_url(origin: &str, path: &str, q: &Vec<char>) -> (r: Vec<char>)
    ensures
        r@ == "\""@ + origin@ + path@ + (if q@.len() == 0 {
            Seq::empty()
        } else {
            "?"@ + q@
        }) + "\""@,
{
    let mut out: Vec<char> = Vec::new();
    push_str(&mut out, "\"");
    push_str(&mut out, origin);
    push_str(&mut out, path);
    let ghost base = out@;
    if q.len() > 0 {
        push_str(&mut out, "?");
        push_all(&mut out, q);
        assert(out@ =~= base + ("?"@ + q@));
    } else {
        assert(out@ =~= base + Seq::<char>::empty());
    }
    push_str(&mut out, "\"");
    out
}

fn curl_auth(auth: bool, key: &str) -> (r: Vec<char>)
    ensures
        r@ == if auth {
            " -H \"Authorization: Bearer "@ + (if key@.len() == 0 {
                "<key>"@
            } else {
                key@
            }) + "\""@
        } else {
            Seq::empty()
        },
{
    let mut out: Vec<char> = Vec::new();
    if auth {
        push_str(&mut out, " -H \"Authorization: Bearer ");
        if chars_of(key).len() == 0 {
            push_str(&mut out, "<key>");
        } else {
            push_str(&mut out, key);
        }
        push_str(&mut out, "\"");
    }
    out
}

fn curl_body(body: &Option<String>) -> (r: Vec<char>)
    ensures
        r@ == match opt_text(*body) {
            Some(b) => " -H \"Content-Type: application/json\" -d '"@ + b + "'"@,
            None => Seq::empty(),
        },
{
    let mut out: Vec<char> = Vec::new();
    match body {
        Some(b) => {
            push_str(&mut out, " -H \"Content-Type: application/json\" -d '");
            push_str(&mut out, b.as_str());
            push_str(&mut out, "'");
        },
        None => {},
    }
    out
}

/// The query string of the required query parameters.
fn query_of(params: &Vec<Param>) -> (r: Vec<char>)
    ensures
        r@ == query_spec(param_views(params@)),
{
    let mut out: Vec<char> = Vec::new();
    let ghost pv = param_views(params@);
    let mut i: usize = 0;
    while i < params.len()
        invariant
            pv == param_views(params@),
            i <= params@.len(),
            out@ == query_spec(pv.take(i as int)),
        decreases params@.len() - i,
    {
        proof {
            assert(pv.take(i + 1).drop_last() =~= pv.take(i as int));
            assert(pv.take(i + 1).last() == param_view(params@[i as int]));
        }
        let p = &params[i];
        if str_eq(p.location.as_str(), "query") && p.required {
            if out.len() > 0 {
                push_str(&mut out, "&");
            }
            push_str(&mut out, p.name.as_str());
            push_str(&mut out, "=<");
            push_str(&mut out, p.name.as_str());
            push_str(&mut out, ">");
        }
        i = i + 1;
    }
    assert(pv.take(i as int) =~= pv);
    out
}

// ---------------------------------------------------------------------------
// Schemas
// ---------------------------------------------------------------------------

/// `$ref` hops followed before giving up.
pub const MAX_REF_HOPS: usize = 8;

/// Levels of `anyOf` / `oneOf` a type name spells out.
pub const MAX_TYPE_DEPTH: usize = 32;

/// Levels of nesting an example body is built to.
pub const EXAMPLE_DEPTH: usize = 4;

/// The last `/`-separated segment of a reference.
pub open spec fn ref_name(r: Seq<char>) -> Seq<char> {
    split_char(r, '/').last()
}

/// Follows `$ref` into `components.schemas`, at most `n` hops, stopping at a
/// schema without a string `$ref` or at a name the components do not have.
pub open spec fn resolve_spec(schema: JsonV, comps: JsonV, n: nat) -> JsonV
    decreases n,
{
    if n == 0 {
        schema
    } else {
        match str_spec(get_spec(schema, "$ref"@)) {
            None => schema,
            Some(r) => match get_spec(comps, ref_name(r)) {
                Some(next) => resolve_spec(next, comps, (n - 1) as nat),
                None => schema,
            },
        }
    }
}

pub open spec fn resolved(schema: JsonV, comps: JsonV) -> JsonV {
    resolve_spec(schema, comps, MAX_REF_HOPS as nat)
}

/// The alternatives a schema offers: its `anyOf`, or its `oneOf` when it has
/// no `anyOf`, if that is an array.
pub open spec fn branches_of(s: JsonV) -> Option<Seq<JsonV>> {
    array_spec(
        match get_spec(s, "anyOf"@) {
            Some(v) => Some(v),
            None => get_spec(s, "oneOf"@),
        },
    )
}

/// The schema's own `type`, `object` when it declares none.
pub open spec fn type_field(s: JsonV) -> Seq<char> {
    match str_spec(get_spec(s, "type"@)) {
        Some(t) => t,
        None => "object"@,
    }
}

/// What the caller has to send: `integer`, `string | null`. Alternatives are
/// spelled out to `depth` levels.
pub open spec fn schema_type_spec(schema: JsonV, comps: JsonV, depth: nat) -> Seq<char>
    decreases depth, 0nat,
{
    let s = resolved(schema, comps);
    match branches_of(s) {
        Some(bs) => if depth == 0 {
            type_field(s)
        } else {
            names_joined(bs, comps, (depth - 1) as nat)
        },
        None => type_field(s),
    }
}

/// The type names of the alternatives, joined with ` | `.
pub open spec fn names_joined(bs: Seq<JsonV>, comps: JsonV, depth: nat) -> Seq<char>
    decreases depth, bs.len(),
{
    if bs.len() == 0 {
        Seq::empty()
    } else if bs.len() == 1 {
        schema_type_spec(bs[0], comps, depth)
    } else {
        names_joined(bs.drop_last(), comps, depth) + " | "@ + schema_type_spec(bs.last(), comps, depth)
    }
}

fn resolve<'a>(schema: &'a Json, comps: &'a Json) -> (r: &'a Json)
    ensures
        r@ == resolved(schema@, comps@),
{
    let mut current = schema;
    let mut n: usize = 0;
    while n < MAX_REF_HOPS
        invariant
            n <= MAX_REF_HOPS,
            resolved(schema@, comps@) == resolve_spec(current@, comps@, (MAX_REF_HOPS - n) as nat),
        decreases MAX_REF_HOPS - n,
    {
        let reference = match get_str(current, "$ref") {
            Some(r) => r,
            None => {
                return current;
            },
        };
        let pieces = split_chars(&chars_of(reference), '/');
        let name = string_of(&pieces[pieces.len() - 1]);
        proof {
            assert(char_views(pieces@).last() == pieces@[pieces@.len() - 1]@);
        }
        match comps.get(name.as_str()) {
            Some(next) => {
                current = next;
            },
            None => {
                return current;
            },
        }
        n = n + 1;
    }
    current
}

fn type_field_of(s: &Json) -> (r: String)
    ensures
        r@ == type_field(s@),
{
    match get_str(s, "type") {
        Some(t) => t.to_owned(),
        None => "object".to_owned(),
    }
}

fn branches<'a>(s: &'a Json) -> (r: Option<&'a Vec<Json>>)
    ensures
        match branches_of(s@) {
            Some(bs) => r is Some && views(r->0@) == bs,
            None => r is None,
        },
{
    let g = match s.get("anyOf") {
        Some(v) => Some(v),
        None => s.get("oneOf"),
    };
    match g {
        Some(v) => v.as_array(),
        None => None,
    }
}

fn schema_type(schema: &Json, comps: &Json, depth: usize) -> (r: String)
    ensures
        r@ == schema_type_spec(schema@, comps@, depth as nat),
    decreases depth, 0nat,
{
    let s = resolve(schema, comps);
    match branches(s) {
        Some(bs) => {
            if depth == 0 {
                type_field_of(s)
            } else {
                let mut out: Vec<char> = Vec::new();
                let mut i: usize = 0;
                proof {
                    crate::json::lemma_views(bs@);
                }
                while i < bs.len()
                    invariant
                        0 < depth,
                        i <= bs@.len(),
                        views(bs@).len() == bs@.len(),
                        forall|k: int| 0 <= k < bs@.len() ==> #[trigger] views(bs@)[k] == bs@[k]@,
                        out@ == names_joined(views(bs@).take(i as int), comps@, (depth - 1) as nat),
                    decreases bs@.len() - i,
                {
                    proof {
                        assert(views(bs@).take(i + 1).drop_last() =~= views(bs@).take(i as int));
                        assert(views(bs@).take(i + 1).last() == bs@[i as int]@);
                        if i == 0 {
                            assert(views(bs@).take(1)[0] == bs@[0]@);
                        }
                    }
                    let t = schema_type(&bs[i], comps, depth - 1);
                    if i > 0 {
                        push_str(&mut out, " | ");
                    }
                    push_str(&mut out, t.as_str());
                    i = i + 1;
                }
                assert(views(bs@).take(i as int) =~= views(bs@));
                string_of(&out)
            }
        },
        None => type_field_of(s),
    }
}

/// The first entry of an array value, if it is one and has entries.
pub open spec fn first_entry(j: Option<JsonV>) -> Option<JsonV> {
    match array_spec(j) {
        Some(v) => if v.len() > 0 {
            Some(v[0])
        } else {
            None
        },
        None => None,
    }
}

/// Index of the first alternative that does not resolve to `type: "null"`.
pub open spec fn first_non_null(bs: Seq<JsonV>, comps: JsonV) -> Option<int>
    decreases bs.len(),
{
    if bs.len() == 0 {
        None
    } else if str_spec(get_spec(resolved(bs[0], comps), "type"@)) != Some("null"@) {
        Some(0)
    } else {
        match first_non_null(bs.drop_first(), comps) {
            Some(i) => Some(i + 1),
            None => None,
        }
    }
}

/// Whether a property is filled in by the server rather than sent.
pub open spec fn read_only(prop: JsonV, comps: JsonV) -> bool {
    get_spec(resolved(prop, comps), "readOnly"@) == Some(JsonV::Bool(true))
}

/// A fillable example for a schema: its declared default or example, else
/// the first of its examples or enum values, else an empty value of its type
/// (the non-null alternative for an `anyOf`; an object of its writable
/// properties). `null` once `depth` runs out.
pub open spec fn example_spec(schema: JsonV, comps: JsonV, depth: nat) -> JsonV
    decreases depth, 0nat,
{
    let s = resolved(schema, comps);
    if get_spec(s, "default"@) is Some {
        get_spec(s, "default"@)->0
    } else if get_spec(s, "example"@) is Some {
        get_spec(s, "example"@)->0
    } else if first_entry(get_spec(s, "examples"@)) is Some {
        first_entry(get_spec(s, "examples"@))->0
    } else if first_entry(get_spec(s, "enum"@)) is Some {
        first_entry(get_spec(s, "enum"@))->0
    } else if depth == 0 {
        JsonV::Null
    } else {
        match branches_of(s) {
            Some(bs) => match first_non_null(bs, comps) {
                Some(i) => if 0 <= i < bs.len() {
                    example_spec(bs[i], comps, (depth - 1) as nat)
                } else {
                    JsonV::Null
                },
                None => JsonV::Null,
            },
            None => {
                let t = str_spec(get_spec(s, "type"@));
                if t == Some("string"@) {
                    JsonV::Str(Seq::empty())
                } else if t == Some("integer"@) {
                    JsonV::Number("0"@)
                } else if t == Some("number"@) {
                    JsonV::Number("0.0"@)
                } else if t == Some("boolean"@) {
                    JsonV::Bool(false)
                } else if t == Some("null"@) {
                    JsonV::Null
                } else if t == Some("array"@) {
                    match get_spec(s, "items"@) {
                        Some(items) => JsonV::Array(
                            seq![example_spec(items, comps, (depth - 1) as nat)],
                        ),
                        None => JsonV::Array(Seq::empty()),
                    }
                } else {
                    JsonV::Object(
                        props_example(
                            match object_spec(get_spec(s, "properties"@)) {
                                Some(ps) => ps,
                                None => Seq::empty(),
                            },
                            comps,
                            (depth - 1) as nat,
                        ),
                    )
                }
            },
        }
    }
}

/// The writable properties, each with its example.
pub open spec fn props_example(ps: Seq<(Seq<char>, JsonV)>, comps: JsonV, depth: nat) -> Seq<
    (Seq<char>, JsonV),
>
    decreases depth, ps.len(),
{
    if ps.len() == 0 {
        Seq::empty()
    } else {
        let rest = props_example(ps.drop_last(), comps, depth);
        let (name, prop) = ps.last();
        if read_only(prop, comps) {
            rest
        } else {
            rest.push((name, example_spec(prop, comps, depth)))
        }
    }
}

fn non_null_index(bs: &Vec<Json>, comps: &Json) -> (r: Option<usize>)
    ensures
        match r {
            Some(k) => k < bs@.len() && first_non_null(views(bs@), comps@) == Some(k as int),
            None => first_non_null(views(bs@), comps@) is None,
        },
{
    proof {
        crate::json::lemma_views(bs@);
    }
    let ghost bv = views(bs@);
    let mut i: usize = 0;
    assert(bv.skip(0) =~= bv);
    while i < bs.len()
        invariant
            bv == views(bs@),
            bv.len() == bs@.len(),
            forall|k: int| 0 <= k < bs@.len() ==> #[trigger] bv[k] == bs@[k]@,
            i <= bs@.len(),
            first_non_null(bv, comps@) == match first_non_null(bv.skip(i as int), comps@) {
                Some(k) => Some(k + i),
                None => None,
            },
        decreases bs@.len() - i,
    {
        proof {
            assert(bv.skip(i as int).drop_first() =~= bv.skip(i + 1));
            assert(bv.skip(i as int)[0] == bs@[i as int]@);
        }
        let r = resolve(&bs[i], comps);
        let is_null = match get_str(r, "type") {
            Some(t) => str_eq(t, "null"),
            None => false,
        };
        if !is_null {
            return Some(i);
        }
        i = i + 1;
    }
    None
}

fn is_read_only(prop: &Json, comps: &Json) -> (r: bool)
    ensures
        r == read_only(prop@, comps@),
{
    let s = resolve(prop, comps);
    match s.get("readOnly") {
        Some(v) => match v {
            Json::Bool(b) => *b,
            Json::Array(a) => {
                proof {
                    lemma_view_array(*a);
                }
                false
            },
            Json::Object(m) => {
                proof {
                    lemma_view_object(*m);
                }
                false
            },
            _ => false,
        },
        None => false,
    }
}

fn first_of<'a>(j: Option<&'a Json>) -> (r: Option<&'a Json>)
    ensures
        match first_entry(
            match j {
                Some(x) => Some(x@),
                None => None,
            },
        ) {
            Some(v) => r is Some && r->0@ == v,
            None => r is None,
        },
{
    match j {
        Some(x) => match x.as_array() {
            Some(v) => {
                proof {
                    crate::json::lemma_views(v@);
                }
                if v.len() > 0 {
                    Some(&v[0])
                } else {
                    None
                }
            },
            None => None,
        },
        None => None,
    }
}

fn type_is(t: Option<&str>, name: &str) -> (b: bool)
    ensures
        b == (match t {
            Some(x) => Some(x@),
            None => None::<Seq<char>>,
        } == Some(name@)),
{
    match t {
        Some(x) => str_eq(x, name),
        None => false,
    }
}

fn example(schema: &Json, comps: &Json, depth: usize) -> (r: Json)
    ensures
        r@ == example_spec(schema@, comps@, depth as nat),
    decreases depth, 0nat,
{
    let s = resolve(schema, comps);
    match s.get("default") {
        Some(v) => {
            return crate::json::copy_json(v);
        },
        None => {},
    }
    match s.get("example") {
        Some(v) => {
            return crate::json::copy_json(v);
        },
        None => {},
    }
    match first_of(s.get("examples")) {
        Some(v) => {
            return crate::json::copy_json(v);
        },
        None => {},
    }
    match first_of(s.get("enum")) {
        Some(v) => {
            return crate::json::copy_json(v);
        },
        None => {},
    }
    if depth == 0 {
        return Json::Null;
    }
    match branches(s) {
        Some(bs) => {
            proof {
                crate::json::lemma_views(bs@);
            }
            match non_null_index(bs, comps) {
                Some(i) => example(&bs[i], comps, depth - 1),
                None => Json::Null,
            }
        },
        None => {
            let t = get_str(s, "type");
            if type_is(t, "string") {
                Json::Str(String::new())
            } else if type_is(t, "integer") {
                Json::Number("0".to_owned())
            } else if type_is(t, "number") {
                Json::Number("0.0".to_owned())
            } else if type_is(t, "boolean") {
                Json::Bool(false)
            } else if type_is(t, "null") {
                Json::Null
            } else if type_is(t, "array") {
                match s.get("items") {
                    Some(items) => {
                        let one = example(items, comps, depth - 1);
                        let mut v: Vec<Json> = Vec::new();
                        v.push(one);
                        proof {
                            crate::json::lemma_views(v@);
                            assert(views(v@) =~= seq![one@]);
                        }
                        Json::Array(v)
                    },
                    None => {
                        let v: Vec<Json> = Vec::new();
                        proof {
                            crate::json::lemma_views(v@);
                            assert(views(v@) =~= Seq::<JsonV>::empty());
                        }
                        Json::Array(v)
                    },
                }
            } else {
                let mut out: Vec<(String, Json)> = Vec::new();
                match s.get("properties") {
                    Some(p) => match p.as_object() {
                        Some(ps) => {
                            proof {
                                crate::json::lemma_member_views(ps@);
                            }
                            let ghost pv = member_views(ps@);
                            let mut i: usize = 0;
                            while i < ps.len()
                                invariant
                                    0 < depth,
                                    pv == member_views(ps@),
                                    pv.len() == ps@.len(),
                                    forall|k: int|
                                        0 <= k < ps@.len() ==> #[trigger] pv[k] == (
                                        ps@[k].0@,
                                        ps@[k].1@,
                                    ),
                                    i <= ps@.len(),
                                    member_views(out@) == props_example(
                                        pv.take(i as int),
                                        comps@,
                                        (depth - 1) as nat,
                                    ),
                                decreases ps@.len() - i,
                            {
                                proof {
                                    assert(pv.take(i + 1).drop_last() =~= pv.take(i as int));
                                    assert(pv.take(i + 1).last() == pv[i as int]);
                                }
                                if !is_read_only(&ps[i].1, comps) {
                                    let ex = example(&ps[i].1, comps, depth - 1);
                                    let ghost prev = out@;
                                    let name = ps[i].0.clone();
                                    out.push((name, ex));
                                    proof {
                                        crate::json::lemma_member_views(prev);
                                        crate::json::lemma_member_views(out@);
                                        assert(member_views(out@) =~= member_views(prev).push(
                                            (name@, ex@),
                                        ));
                                    }
                                }
                                i = i + 1;
                            }
                            assert(pv.take(i as int) =~= pv);
                        },
                        None => {
                            proof {
                                crate::json::lemma_member_views(out@);
                                assert(member_views(out@) =~= props_example(
                                    Seq::empty(),
                                    comps@,
                                    (depth - 1) as nat,
                                ));
                            }
                        },
                    },
                    None => {
                        proof {
                            crate::json::lemma_member_views(out@);
                            assert(member_views(out@) =~= props_example(
                                Seq::empty(),
                                comps@,
                                (depth - 1) as nat,
                            ));
                        }
                    },
                }
                proof {
                    crate::json::lemma_view_object(out);
                }
                Json::Object(out)
            }
        },
    }
}

// ---------------------------------------------------------------------------
// The document
// ---------------------------------------------------------------------------

/// Routes that answer without a bearer token.
pub open spec fn is_open_route(path: Seq<char>) -> bool {
    path == "/health"@ || path == "/ready"@ || path == "/v1/health"@ || path
        == "/v1/health/readiness"@
}

/// Header parameters every route inherits from its auth dependency.
pub open spec fn is_boring_header(name: Seq<char>) -> bool {
    name == "authorization"@ || name == "x-agent-platform-client"@
}

/// The methods the reference lists.
pub open spec fn is_method(m: Seq<char>) -> bool {
    m == "GET"@ || m == "POST"@ || m == "PUT"@ || m == "PATCH"@ || m == "DELETE"@
}

pub open spec fn text_or(o: Option<Seq<char>>, d: Seq<char>) -> Seq<char> {
    match o {
        Some(t) => t,
        None => d,
    }
}

/// One declared parameter, unless it has no name or is a header every route
/// inherits.
pub open spec fn param_of(p: JsonV, comps: JsonV) -> Option<ParamV> {
    match str_spec(get_spec(p, "name"@)) {
        None => None,
        Some(name) => {
            let loc = text_or(str_spec(get_spec(p, "in"@)), "query"@);
            if loc == "header"@ && is_boring_header(lowercase(name)) {
                None
            } else {
                Some(
                    (
                        name,
                        loc,
                        match bool_spec(get_spec(p, "required"@)) {
                            Some(b) => b,
                            None => false,
                        },
                        schema_type_spec(
                            match get_spec(p, "schema"@) {
                                Some(x) => x,
                                None => JsonV::Null,
                            },
                            comps,
                            MAX_TYPE_DEPTH as nat,
                        ),
                    ),
                )
            }
        },
    }
}

pub open spec fn params_of(list: Seq<JsonV>, comps: JsonV) -> Seq<ParamV>
    decreases list.len(),
{
    if list.len() == 0 {
        Seq::empty()
    } else {
        let rest = params_of(list.drop_last(), comps);
        match param_of(list.last(), comps) {
            Some(p) => rest.push(p),
            None => rest,
        }
    }
}

pub open spec fn params_spec(op: JsonV, comps: JsonV) -> Seq<ParamV> {
    match array_spec(get_spec(op, "parameters"@)) {
        Some(list) => params_of(list, comps),
        None => Seq::empty(),
    }
}

/// The JSON schema of an operation's request body.
pub open spec fn body_schema(op: JsonV) -> Option<JsonV> {
    match get_spec(op, "requestBody"@) {
        Some(rb) => match get_spec(rb, "content"@) {
            Some(c) => match get_spec(c, "application/json"@) {
                Some(aj) => get_spec(aj, "schema"@),
                None => None,
            },
            None => None,
        },
        None => None,
    }
}

/// The example body of an operation, unless it comes out `null`.
pub open spec fn body_example(op: JsonV, comps: JsonV) -> Option<JsonV> {
    match body_schema(op) {
        Some(schema) => {
            let ex = example_spec(schema, comps, EXAMPLE_DEPTH as nat);
            if ex is Null {
                None
            } else {
                Some(ex)
            }
        },
        None => None,
    }
}

/// An operation's first tag, `other` when it has none.
pub open spec fn tag_of(op: JsonV) -> Seq<char> {
    match first_entry(get_spec(op, "tags"@)) {
        Some(JsonV::Str(t)) => t,
        _ => "other"@,
    }
}

pub open spec fn endpoint_of(path: Seq<char>, method: Seq<char>, op: JsonV, comps: JsonV) -> EndpointV {
    let body = body_example(op, comps);
    EndpointV {
        method,
        path,
        tag: tag_of(op),
        summary: text_or(str_spec(get_spec(op, "summary"@)), Seq::empty()),
        description: text_or(str_spec(get_spec(op, "description"@)), Seq::empty()),
        params: params_spec(op, comps),
        body: match body {
            Some(v) => Some(pretty(v)),
            None => None,
        },
        body_compact: match body {
            Some(v) => Some(compact(v)),
            None => None,
        },
        auth: !is_open_route(path),
    }
}

/// The endpoints of one path, in the document's order, methods upper-cased
/// and anything that is not one of the five methods skipped.
pub open spec fn ops_endpoints(path: Seq<char>, ops: Seq<(Seq<char>, JsonV)>, comps: JsonV) -> Seq<
    EndpointV,
>
    decreases ops.len(),
{
    if ops.len() == 0 {
        Seq::empty()
    } else {
        let rest = ops_endpoints(path, ops.drop_last(), comps);
        let m = uppercase(ops.last().0);
        if is_method(m) {
            rest.push(endpoint_of(path, m, ops.last().1, comps))
        } else {
            rest
        }
    }
}

/// Every path's endpoints, one path after another; a path whose value is not
/// an object has none.
pub open spec fn paths_endpoints(paths: Seq<(Seq<char>, JsonV)>, comps: JsonV) -> Seq<EndpointV>
    decreases paths.len(),
{
    if paths.len() == 0 {
        Seq::empty()
    } else {
        let rest = paths_endpoints(paths.drop_last(), comps);
        match object_spec(Some(paths.last().1)) {
            Some(ops) => rest + ops_endpoints(paths.last().0, ops, comps),
            None => rest,
        }
    }
}

// ---------------------------------------------------------------------------
// Order
// ---------------------------------------------------------------------------

/// `a < b` for strings: code point by code point, a proper prefix first.
pub open spec fn lex_lt(a: Seq<char>, b: Seq<char>) -> bool
    decreases a.len(),
{
    if b.len() == 0 {
        false
    } else if a.len() == 0 {
        true
    } else if a[0] != b[0] {
        (a[0] as u32) < (b[0] as u32)
    } else {
        lex_lt(a.drop_first(), b.drop_first())
    }
}

/// Whether `x` sorts strictly before `y` by (tag, path, method).
pub open spec fn key_lt(x: EndpointV, y: EndpointV) -> bool {
    lex_lt(x.tag, y.tag) || (x.tag == y.tag && (lex_lt(x.path, y.path) || (x.path == y.path
        && lex_lt(x.method, y.method))))
}

/// Where `x` goes in `t`: after every entry that does not sort after it.
pub open spec fn insert_pos(t: Seq<EndpointV>, x: EndpointV) -> int
    decreases t.len(),
{
    if t.len() == 0 || key_lt(x, t[0]) {
        0
    } else {
        1 + insert_pos(t.drop_first(), x)
    }
}

pub open spec fn insert_sorted(t: Seq<EndpointV>, x: EndpointV) -> Seq<EndpointV> {
    let k = insert_pos(t, x);
    t.take(k).push(x) + t.skip(k)
}

/// The endpoints sorted by (tag, path, method), keeping the document's order
/// among equal keys.
pub open spec fn sort_spec(s: Seq<EndpointV>) -> Seq<EndpointV>
    decreases s.len(),
{
    if s.len() == 0 {
        Seq::empty()
    } else {
        insert_sorted(sort_spec(s.drop_last()), s.last())
    }
}

/// The list the reference shows for a document.
pub open spec fn parse_spec(doc: JsonV) -> Seq<EndpointV> {
    let comps = match get_spec(doc, "components"@) {
        Some(c) => match get_spec(c, "schemas"@) {
            Some(s) => s,
            None => JsonV::Object(Seq::empty()),
        },
        None => JsonV::Object(Seq::empty()),
    };
    match object_spec(get_spec(doc, "paths"@)) {
        Some(paths) => sort_spec(paths_endpoints(paths, comps)),
        None => Seq::empty(),
    }
}

pub open spec fn endpoint_views(s: Seq<Endpoint>) -> Seq<EndpointV> {
    s.map_values(|e: Endpoint| e@)
}

fn param_from(p: &Json, comps: &Json) -> (r: Option<Param>)
    ensures
        match param_of(p@, comps@) {
            Some(v) => r is Some && param_view(r->0) == v,
            None => r is None,
        },
{
    let name = match get_str(p, "name") {
        Some(n) => n,
        None => {
            return None;
        },
    };
    let location = match get_str(p, "in") {
        Some(l) => l,
        None => "query",
    };
    if str_eq(location, "header") {
        let low = to_lowercase(name);
        if str_eq(low.as_str(), "authorization") || str_eq(low.as_str(), "x-agent-platform-client") {
            return None;
        }
    }
    let required = match p.get("required") {
        Some(v) => match v.as_bool() {
            Some(b) => b,
            None => false,
        },
        None => false,
    };
    let null = Json::Null;
    let schema = match p.get("schema") {
        Some(x) => x,
        None => &null,
    };
    let kind = schema_type(schema, comps, MAX_TYPE_DEPTH);
    Some(Param { name: name.to_owned(), location: location.to_owned(), required, kind })
}

/// The parameters a caller fills in, in the document's order.
fn params(op: &Json, comps: &Json) -> (r: Vec<Param>)
    ensures
        param_views(r@) == params_spec(op@, comps@),
{
    let mut out: Vec<Param> = Vec::new();
    let list = match op.get("parameters") {
        Some(l) => match l.as_array() {
            Some(v) => v,
            None => {
                assert(param_views(out@) =~= Seq::<ParamV>::empty());
                return out;
            },
        },
        None => {
            assert(param_views(out@) =~= Seq::<ParamV>::empty());
            return out;
        },
    };
    proof {
        crate::json::lemma_views(list@);
    }
    let ghost lv = views(list@);
    let mut i: usize = 0;
    while i < list.len()
        invariant
            lv == views(list@),
            lv.len() == list@.len(),
            forall|k: int| 0 <= k < list@.len() ==> #[trigger] lv[k] == list@[k]@,
            i <= list@.len(),
            param_views(out@) == params_of(lv.take(i as int), comps@),
        decreases list@.len() - i,
    {
        proof {
            assert(lv.take(i + 1).drop_last() =~= lv.take(i as int));
            assert(lv.take(i + 1).last() == list@[i as int]@);
        }
        match param_from(&list[i], comps) {
            Some(p) => {
                let ghost prev = out@;
                out.push(p);
                assert(param_views(out@) =~= param_views(prev).push(param_view(p)));
            },
            None => {},
        }
        i = i + 1;
    }
    assert(lv.take(i as int) =~= lv);
    out
}

fn tag(op: &Json) -> (r: String)
    ensures
        r@ == tag_of(op@),
{
    match first_of(op.get("tags")) {
        Some(t) => match t.as_str() {
            Some(x) => x.to_owned(),
            None => {
                proof {
                    match t@ {
                        JsonV::Str(_) => {},
                        _ => {},
                    }
                }
                "other".to_owned()
            },
        },
        None => "other".to_owned(),
    }
}

fn text_field(op: &Json, key: &str) -> (r: String)
    ensures
        r@ == text_or(str_spec(get_spec(op@, key@)), Seq::empty()),
{
    match get_str(op, key) {
        Some(t) => t.to_owned(),
        None => String::new(),
    }
}

fn body_schema_of<'a>(op: &'a Json) -> (r: Option<&'a Json>)
    ensures
        match body_schema(op@) {
            Some(v) => r is Some && r->0@ == v,
            None => r is None,
        },
{
    match op.get("requestBody") {
        Some(rb) => match rb.get("content") {
            Some(c) => match c.get("application/json") {
                Some(aj) => aj.get("schema"),
                None => None,
            },
            None => None,
        },
        None => None,
    }
}

fn is_open_path(path: &str) -> (r: bool)
    ensures
        r == is_open_route(path@),
{
    str_eq(path, "/health") || str_eq(path, "/ready") || str_eq(path, "/v1/health") || str_eq(
        path,
        "/v1/health/readiness",
    )
}

fn method_known(m: &str) -> (r: bool)
    ensures
        r == is_method(m@),
{
    str_eq(m, "GET") || str_eq(m, "POST") || str_eq(m, "PUT") || str_eq(m, "PATCH") || str_eq(
        m,
        "DELETE",
    )
}

fn endpoint(path: &str, method: String, op: &Json, comps: &Json) -> (r: Endpoint)
    ensures
        r@ == endpoint_of(path@, method@, op@, comps@),
{
    let ex = match body_schema_of(op) {
        Some(schema) => {
            let v = example(schema, comps, EXAMPLE_DEPTH);
            if v.is_null() {
                None
            } else {
                Some(v)
            }
        },
        None => None,
    };
    let (body, body_compact) = match &ex {
        Some(v) => (Some(string_of(&to_pretty(v))), Some(string_of(&to_compact(v)))),
        None => (None, None),
    };
    Endpoint {
        auth: !is_open_path(path),
        method,
        tag: tag(op),
        summary: text_field(op, "summary"),
        description: text_field(op, "description"),
        params: params(op, comps),
        body,
        body_compact,
        path: path.to_owned(),
    }
}

/// `a < b` on characters.
pub fn lex_less(a: &[char], b: &[char]) -> (r: bool)
    ensures
        r == lex_lt(a@, b@),
{
    let mut i: usize = 0;
    assert(a@.skip(0) =~= a@);
    assert(b@.skip(0) =~= b@);
    while i < a.len() && i < b.len()
        invariant
            i <= a@.len(),
            i <= b@.len(),
            lex_lt(a@, b@) == lex_lt(a@.skip(i as int), b@.skip(i as int)),
        decreases a@.len() - i,
    {
        assert(a@.skip(i as int)[0] == a@[i as int]);
        assert(b@.skip(i as int)[0] == b@[i as int]);
        if a[i] != b[i] {
            return (a[i] as u32) < (b[i] as u32);
        }
        assert(a@.skip(i as int).drop_first() =~= a@.skip(i + 1));
        assert(b@.skip(i as int).drop_first() =~= b@.skip(i + 1));
        i = i + 1;
    }
    i < b.len()
}

fn key_less(x: &Endpoint, y: &Endpoint) -> (r: bool)
    ensures
        r == key_lt(x@, y@),
{
    let xt = chars_of(x.tag.as_str());
    let yt = chars_of(y.tag.as_str());
    if lex_less(&xt, &yt) {
        return true;
    }
    if !str_eq(x.tag.as_str(), y.tag.as_str()) {
        return false;
    }
    let xp = chars_of(x.path.as_str());
    let yp = chars_of(y.path.as_str());
    if lex_less(&xp, &yp) {
        return true;
    }
    if !str_eq(x.path.as_str(), y.path.as_str()) {
        return false;
    }
    lex_less(&chars_of(x.method.as_str()), &chars_of(y.method.as_str()))
}

proof fn lemma_insert_pos_at(t: Seq<EndpointV>, x: EndpointV, i: int)
    requires
        0 <= i <= t.len(),
        forall|j: int| 0 <= j < i ==> !key_lt(x, #[trigger] t[j]),
        i == t.len() || key_lt(x, t[i]),
    ensures
        insert_pos(t, x) == i,
    decreases i,
{
    if i > 0 {
        let u = t.drop_first();
        assert(!key_lt(x, t[0]));
        assert forall|j: int| 0 <= j < i - 1 implies !key_lt(x, #[trigger] u[j]) by {
            assert(u[j] == t[j + 1]);
        }
        if i < t.len() {
            assert(u[i - 1] == t[i]);
        }
        lemma_insert_pos_at(u, x, i - 1);
    }
}

/// Put `e` into the sorted list where the order says it goes.
fn insert_endpoint(out: &mut Vec<Endpoint>, e: Endpoint)
    ensures
        endpoint_views(final(out)@) == insert_sorted(endpoint_views(old(out)@), e@),
{
    let ghost ov = endpoint_views(out@);
    let mut i: usize = 0;
    while i < out.len() && !key_less(&e, &out[i])
        invariant
            ov == endpoint_views(out@),
            i <= out@.len(),
            forall|j: int| 0 <= j < i ==> !key_lt(e@, #[trigger] ov[j]),
        decreases out@.len() - i,
    {
        assert(ov[i as int] == out@[i as int]@);
        i = i + 1;
    }
    proof {
        if i < out@.len() {
            assert(ov[i as int] == out@[i as int]@);
        }
        lemma_insert_pos_at(ov, e@, i as int);
    }
    let ghost before = out@;
    out.insert(i, e);
    assert(endpoint_views(out@) =~= ov.take(i as int).push(e@) + ov.skip(i as int));
}

/// Flattens the document into one list, sorted by tag, then path, then
/// method, so the view can group by walking it once.
pub fn parse(spec: &Json) -> (r: Vec<Endpoint>)
    ensures
        endpoint_views(r@) == parse_spec(spec@),
{
    let no_members: Vec<(String, Json)> = Vec::new();
    proof {
        crate::json::lemma_view_object(no_members);
        assert(member_views(no_members@) =~= Seq::<(Seq<char>, JsonV)>::empty());
    }
    let empty_obj = Json::Object(no_members);
    let comps = match spec.get("components") {
        Some(c) => match c.get("schemas") {
            Some(x) => x,
            None => &empty_obj,
        },
        None => &empty_obj,
    };
    let mut out: Vec<Endpoint> = Vec::new();
    let paths = match spec.get("paths") {
        Some(p) => match p.as_object() {
            Some(m) => m,
            None => {
                return out;
            },
        },
        None => {
            return out;
        },
    };
    proof {
        crate::json::lemma_member_views(paths@);
    }
    let ghost pv = member_views(paths@);
    let mut i: usize = 0;
    while i < paths.len()
        invariant
            pv == member_views(paths@),
            pv.len() == paths@.len(),
            forall|k: int|
                0 <= k < paths@.len() ==> #[trigger] pv[k] == (paths@[k].0@, paths@[k].1@),
            i <= paths@.len(),
            endpoint_views(out@) == sort_spec(paths_endpoints(pv.take(i as int), comps@)),
        decreases paths@.len() - i,
    {
        proof {
            assert(pv.take(i + 1).drop_last() =~= pv.take(i as int));
            assert(pv.take(i + 1).last() == pv[i as int]);
        }
        let path = paths[i].0.as_str();
        match paths[i].1.as_object() {
            Some(ops) => {
                proof {
                    crate::json::lemma_member_views(ops@);
                }
                let ghost ov = member_views(ops@);
                let ghost base = paths_endpoints(pv.take(i as int), comps@);
                let mut j: usize = 0;
                while j < ops.len()
                    invariant
                        ov == member_views(ops@),
                        ov.len() == ops@.len(),
                        forall|k: int|
                            0 <= k < ops@.len() ==> #[trigger] ov[k] == (ops@[k].0@, ops@[k].1@),
                        j <= ops@.len(),
                        endpoint_views(out@) == sort_spec(
                            base + ops_endpoints(path@, ov.take(j as int), comps@),
                        ),
                    decreases ops@.len() - j,
                {
                    proof {
                        assert(ov.take(j + 1).drop_last() =~= ov.take(j as int));
                        assert(ov.take(j + 1).last() == ov[j as int]);
                    }
                    let method = to_uppercase(ops[j].0.as_str());
                    if method_known(method.as_str()) {
                        let e = endpoint(path, method, &ops[j].1, comps);
                        let ghost flat = base + ops_endpoints(path@, ov.take(j as int), comps@);
                        insert_endpoint(&mut out, e);
                        proof {
                            assert(flat.push(e@).drop_last() =~= flat);
                            assert(base + ops_endpoints(path@, ov.take(j + 1), comps@) =~= flat.push(
                                e@,
                            ));
                        }
                    }
                    j = j + 1;
                }
                assert(ov.take(j as int) =~= ov);
            },
            None => {
                assert(paths_endpoints(pv.take(i + 1), comps@) =~= paths_endpoints(
                    pv.take(i as int),
                    comps@,
                ));
            },
        }
        i = i + 1;
    }
    assert(pv.take(i as int) =~= pv);
    out
}

// ---------------------------------------------------------------------------
// Quickstart
// ---------------------------------------------------------------------------

/// The three getting-started snippets, against this server's origin.
pub open spec fn snippet_spec(kind: Snippet, origin: Seq<char>) -> Seq<char> {
    match kind {
        Snippet::Curl => "# liveness — no key needed\n"@ + ("curl "@ + origin + "/health"@) + "\n\n# every other call carries the bearer token\ncurl -H \"Authorization: Bearer $KEY\" "@ + origin + "/api/v1/projects/\n\n# start a multi-agent process; answers {\"process_id\": N, \"status\": ...}\ncurl -X POST "@ + ("\""@ + origin + "/api/v1/processes\""@) + " -H \"Authorization: Bearer $KEY\" -H \"Content-Type: application/json\" -d '{\"goal\": \"Draft a launch plan\", \"team_template_id\": 1}'\n\n# follow it (server-sent events; closes on a terminal status or a human gate)\ncurl -N -H \"Authorization: Bearer $KEY\" "@ + origin + "/api/v1/processes/1/stream"@,
        Snippet::Python => "import requests\n\nBASE = \""@ + origin + "\"\nKEY = \"<your key>\"\n\napi = requests.Session()\napi.headers[\"Authorization\"] = f\"Bearer {KEY}\"\n\n# start a process against a team template\nstarted = api.post(\n    f\"{BASE}/api/v1/processes\",\n    json={\"goal\": \"Draft a launch plan\", \"team_template_id\": 1},\n)\nstarted.raise_for_status()\nprocess_id = started.json()[\"process_id\"]\n\n# poll it: {\"process\": {...}, \"tasks\": [...]}\ndetail = api.get(f\"{BASE}/api/v1/processes/{process_id}\").json()\nprint(detail[\"process\"][\"status\"], len(detail[\"tasks\"]), \"tasks\")\n\n# errors come back as {\"error\": {\"message\", \"code\", \"request_id\", ...}}\nbad = api.get(f\"{BASE}/api/v1/processes/999999\")\nprint(bad.status_code, bad.json()[\"error\"][\"code\"])"@,
        Snippet::OpenAi => "# The /v1 surface is OpenAI-compatible, so any OpenAI client works:\n#   pip install openai\nfrom openai import OpenAI\n\nllm = OpenAI("@ + ("base_url=\""@ + origin + "/v1\""@) + ", api_key=\"<your key>\")\n\n# ids come from GET /v1/models; whichever providers are configured\nanswer = llm.chat.completions.create(\n    model=\"llama3\",\n    messages=[{\"role\": \"user\", \"content\": \"ping\"}],\n)\nprint(answer.choices[0].message.content)\n\n# streaming is the same call with stream=True\nfor chunk in llm.chat.completions.create(\n    model=\"llama3\",\n    messages=[{\"role\": \"user\", \"content\": \"ping\"}],\n    stream=True,\n):\n    print(chunk.choices[0].delta.content or \"\", end=\"\")"@,
    }
}

/// The getting-started snippet of one kind. Every call in it is a real route
/// with real field names.
pub fn snippet(kind: Snippet, origin: &str) -> (r: String)
    ensures
        r@ == snippet_spec(kind, origin@),
{
    let mut out: Vec<char> = Vec::new();
    match kind {
        Snippet::Curl => {
            push_str(&mut out, "# liveness — no key needed\n");
            push_str(&mut out, "curl ");
            push_str(&mut out, origin);
            push_str(&mut out, "/health");
            push_str(&mut out, "\n\n# every other call carries the bearer token\ncurl -H \"Authorization: Bearer $KEY\" ");
            push_str(&mut out, origin);
            push_str(&mut out, "/api/v1/projects/\n\n# start a multi-agent process; answers {\"process_id\": N, \"status\": ...}\ncurl -X POST ");
            push_str(&mut out, "\"");
            push_str(&mut out, origin);
            push_str(&mut out, "/api/v1/processes\"");
            push_str(&mut out, " -H \"Authorization: Bearer $KEY\" -H \"Content-Type: application/json\" -d '{\"goal\": \"Draft a launch plan\", \"team_template_id\": 1}'\n\n# follow it (server-sent events; closes on a terminal status or a human gate)\ncurl -N -H \"Authorization: Bearer $KEY\" ");
            push_str(&mut out, origin);
            push_str(&mut out, "/api/v1/processes/1/stream");
        },
        Snippet::Python => {
            push_str(&mut out, "import requests\n\nBASE = \"");
            push_str(&mut out, origin);
            push_str(&mut out, "\"\nKEY = \"<your key>\"\n\napi = requests.Session()\napi.headers[\"Authorization\"] = f\"Bearer {KEY}\"\n\n# start a process against a team template\nstarted = api.post(\n    f\"{BASE}/api/v1/processes\",\n    json={\"goal\": \"Draft a launch plan\", \"team_template_id\": 1},\n)\nstarted.raise_for_status()\nprocess_id = started.json()[\"process_id\"]\n\n# poll it: {\"process\": {...}, \"tasks\": [...]}\ndetail = api.get(f\"{BASE}/api/v1/processes/{process_id}\").json()\nprint(detail[\"process\"][\"status\"], len(detail[\"tasks\"]), \"tasks\")\n\n# errors come back as {\"error\": {\"message\", \"code\", \"request_id\", ...}}\nbad = api.get(f\"{BASE}/api/v1/processes/999999\")\nprint(bad.status_code, bad.json()[\"error\"][\"code\"])");
        },
        Snippet::OpenAi => {
            push_str(&mut out, "# The /v1 surface is OpenAI-compatible, so any OpenAI client works:\n#   pip install openai\nfrom openai import OpenAI\n\nllm = OpenAI(");
            push_str(&mut out, "base_url=\"");
            push_str(&mut out, origin);
            push_str(&mut out, "/v1\"");
            push_str(&mut out, ", api_key=\"<your key>\")\n\n# ids come from GET /v1/models; whichever providers are configured\nanswer = llm.chat.completions.create(\n    model=\"llama3\",\n    messages=[{\"role\": \"user\", \"content\": \"ping\"}],\n)\nprint(answer.choices[0].message.content)\n\n# streaming is the same call with stream=True\nfor chunk in llm.chat.completions.create(\n    model=\"llama3\",\n    messages=[{\"role\": \"user\", \"content\": \"ping\"}],\n    stream=True,\n):\n    print(chunk.choices[0].delta.content or \"\", end=\"\")");
        },
    }
    string_of(&out)
}

// ---------------------------------------------------------------------------
// The screen
// ---------------------------------------------------------------------------

/// The reference screen: the endpoint list, the filter, which row is open,
/// which snippet is shown and which copy button was last pressed.
#[derive(Debug)]
pub struct State {
    pub endpoints: Vec<Endpoint>,
    /// False until the first fetch settles.
    pub loaded: bool,
    pub error: Option<String>,
    pub filter: String,
    /// Which row is expanded, by [`Endpoint::id`].
    pub open: Option<String>,
    pub snippet: Snippet,
    pub copied: Option<String>,
}

/// The endpoints that meet the filter, in order.
pub open spec fn visible_spec(es: Seq<EndpointV>, filter: Seq<char>) -> Seq<EndpointV>
    decreases es.len(),
{
    if es.len() == 0 {
        Seq::empty()
    } else {
        let rest = visible_spec(es.drop_last(), filter);
        if matches_spec(es.last(), filter) {
            rest.push(es.last())
        } else {
            rest
        }
    }
}

pub open spec fn ref_views(s: Seq<&Endpoint>) -> Seq<EndpointV> {
    s.map_values(|e: &Endpoint| e@)
}

impl State {
    pub fn new() -> (r: State)
        ensures
            r.endpoints@.len() == 0,
            !r.loaded,
            r.error is None,
            r.filter@.len() == 0,
            r.open is None,
            r.snippet == Snippet::Curl,
            r.copied is None,
    {
        State {
            endpoints: Vec::new(),
            loaded: false,
            error: None,
            filter: String::new(),
            open: None,
            snippet: Snippet::Curl,
            copied: None,
        }
    }

    /// The endpoints the filter lets through.
    pub fn visible(&self) -> (r: Vec<&Endpoint>)
        ensures
            ref_views(r@) == visible_spec(endpoint_views(self.endpoints@), self.filter@),
    {
        let ghost ev = endpoint_views(self.endpoints@);
        let mut out: Vec<&Endpoint> = Vec::new();
        let mut i: usize = 0;
        while i < self.endpoints.len()
            invariant
                ev == endpoint_views(self.endpoints@),
                i <= self.endpoints@.len(),
                ref_views(out@) == visible_spec(ev.take(i as int), self.filter@),
            decreases self.endpoints@.len() - i,
        {
            proof {
                assert(ev.take(i + 1).drop_last() =~= ev.take(i as int));
                assert(ev.take(i + 1).last() == self.endpoints@[i as int]@);
            }
            let e = &self.endpoints[i];
            if e.matches(self.filter.as_str()) {
                let ghost prev = out@;
                out.push(e);
                assert(ref_views(out@) =~= ref_views(prev).push(e@));
            }
            i = i + 1;
        }
        assert(ev.take(i as int) =~= ev);
        out
    }
}

/// What the reference screen is told.
#[derive(Debug)]
pub enum Message {
    /// "View logs" on a traced error banner, handled before it reaches here.
    TraceLogs(String),
    Refresh,
    Loaded(Result<Vec<Endpoint>, String>),
    FilterChanged(String),
    Toggle(String),
    SnippetChanged(Snippet),
    /// `(button id, text)`.
    Copy(String, String),
}

/// What the program around the screen is to do after a message.
#[derive(Debug)]
pub enum Effect {
    Nothing,
    /// Fetch `/openapi.json` and hand back what [`parse`] makes of it.
    Fetch,
    /// Put the text on the clipboard.
    Clipboard(String),
}

/// The reference screen's state machine. The document is fetched once per
/// session; a failed fetch may be retried.
pub fn update(state: &mut State, message: Message) -> (r: Effect)
    ensures
        match message {
            Message::TraceLogs(_) => r is Nothing && *final(state) == *old(state),
            Message::Refresh => (if old(state).loaded && old(state).error is None {
                r is Nothing
            } else {
                r is Fetch
            }) && *final(state) == *old(state),
            Message::Loaded(Ok(es)) => r is Nothing && *final(state) == (State {
                endpoints: es,
                error: None,
                loaded: true,
                ..*old(state)
            }),
            Message::Loaded(Err(e)) => r is Nothing && *final(state) == (State {
                error: Some(e),
                loaded: true,
                ..*old(state)
            }),
            Message::FilterChanged(v) => r is Nothing && *final(state) == (State { filter: v, ..*old(state) }),
            Message::Toggle(id) => r is Nothing && *final(state) == (State {
                open: if opt_text(old(state).open) == Some(id@) {
                    None
                } else {
                    Some(id)
                },
                ..*old(state)
            }),
            Message::SnippetChanged(k) => r is Nothing && *final(state) == (State { snippet: k, ..*old(state) }),
            Message::Copy(id, text) => r == Effect::Clipboard(text) && *final(state) == (State {
                copied: Some(id),
                ..*old(state)
            }),
        },
{
    match message {
        Message::TraceLogs(_) => Effect::Nothing,
        Message::Refresh => {
            if state.loaded && state.error.is_none() {
                Effect::Nothing
            } else {
                Effect::Fetch
            }
        },
        Message::Loaded(Ok(endpoints)) => {
            state.endpoints = endpoints;
            state.error = None;
            state.loaded = true;
            Effect::Nothing
        },
        Message::Loaded(Err(e)) => {
            state.error = Some(e);
            state.loaded = true;
            Effect::Nothing
        },
        Message::FilterChanged(value) => {
            state.filter = value;
            Effect::Nothing
        },
        Message::Toggle(id) => {
            let same = match &state.open {
                Some(o) => str_eq(o.as_str(), id.as_str()),
                None => false,
            };
            state.open = if same {
                None
            } else {
                Some(id)
            };
            Effect::Nothing
        },
        Message::SnippetChanged(snippet) => {
            state.snippet = snippet;
            Effect::Nothing
        },
        Message::Copy(id, text) => {
            state.copied = Some(id);
            Effect::Clipboard(text)
        },
    }
}

// ---------------------------------------------------------------------------
// Laws
// ---------------------------------------------------------------------------

pub proof fn lemma_lex_irreflexive(a: Seq<char>)
    ensures
        !lex_lt(a, a),
    decreases a.len(),
{
    if a.len() > 0 {
        lemma_lex_irreflexive(a.drop_first());
    }
}

pub proof fn lemma_lex_transitive(a: Seq<char>, b: Seq<char>, c: Seq<char>)
    requires
        lex_lt(a, b),
        lex_lt(b, c),
    ensures
        lex_lt(a, c),
    decreases a.len(),
{
    if a.len() > 0 && a[0] == b[0] && b[0] == c[0] {
        lemma_lex_transitive(a.drop_first(), b.drop_first(), c.drop_first());
    }
}

proof fn lemma_key_irreflexive(x: EndpointV)
    ensures
        !key_lt(x, x),
{
    lemma_lex_irreflexive(x.tag);
    lemma_lex_irreflexive(x.path);
    lemma_lex_irreflexive(x.method);
}

proof fn lemma_key_transitive(x: EndpointV, y: EndpointV, z: EndpointV)
    requires
        key_lt(x, y),
        key_lt(y, z),
    ensures
        key_lt(x, z),
{
    if lex_lt(x.tag, y.tag) && lex_lt(y.tag, z.tag) {
        lemma_lex_transitive(x.tag, y.tag, z.tag);
    }
    if x.tag == y.tag && y.tag == z.tag {
        if lex_lt(x.path, y.path) && lex_lt(y.path, z.path) {
            lemma_lex_transitive(x.path, y.path, z.path);
        }
        if x.path == y.path && y.path == z.path && lex_lt(x.method, y.method) && lex_lt(y.method, z.method) {
            lemma_lex_transitive(x.method, y.method, z.method);
        }
    }
}

/// Nothing in `t` sorts before an entry ahead of it.
pub open spec fn keys_sorted(t: Seq<EndpointV>) -> bool {
    forall|i: int, j: int| 0 <= i < j < t.len() ==> !key_lt(#[trigger] t[j], #[trigger] t[i])
}

proof fn lemma_insert_pos_bounds(t: Seq<EndpointV>, x: EndpointV)
    ensures
        0 <= insert_pos(t, x) <= t.len(),
        forall|j: int| 0 <= j < insert_pos(t, x) ==> !key_lt(x, #[trigger] t[j]),
        insert_pos(t, x) == t.len() || key_lt(x, t[insert_pos(t, x)]),
    decreases t.len(),
{
    if t.len() > 0 && !key_lt(x, t[0]) {
        let u = t.drop_first();
        lemma_insert_pos_bounds(u, x);
        assert forall|j: int| 0 <= j < insert_pos(t, x) implies !key_lt(x, #[trigger] t[j]) by {
            if j > 0 {
                assert(t[j] == u[j - 1]);
            }
        }
        if insert_pos(t, x) < t.len() {
            assert(t[insert_pos(t, x)] == u[insert_pos(u, x)]);
        }
    }
}

proof fn lemma_insert_keeps_sorted(t: Seq<EndpointV>, x: EndpointV)
    requires
        keys_sorted(t),
    ensures
        keys_sorted(insert_sorted(t, x)),
        insert_sorted(t, x).to_multiset() == t.to_multiset().insert(x),
{
    lemma_insert_pos_bounds(t, x);
    let k = insert_pos(t, x);
    let r = insert_sorted(t, x);
    assert(r.len() == t.len() + 1);
    assert forall|j: int| 0 <= j < r.len() implies #[trigger] r[j] == if j < k {
        t[j]
    } else if j == k {
        x
    } else {
        t[j - 1]
    } by {}
    assert forall|i: int, j: int| 0 <= i < j < r.len() implies !key_lt(#[trigger] r[j], #[trigger] r[i]) by {
        if i < k && j == k {
        } else if i == k && j > k {
            if key_lt(t[j - 1], x) {
                if j - 1 == k {
                    lemma_key_transitive(t[k], x, t[k]);
                    lemma_key_irreflexive(t[k]);
                } else {
                    lemma_key_transitive(t[j - 1], x, t[k]);
                }
            }
        } else if i < k && j > k {
            assert(!key_lt(t[j - 1], t[i]));
        } else if j < k {
            assert(!key_lt(t[j], t[i]));
        } else {
            assert(!key_lt(t[j - 1], t[i - 1]));
        }
    }
    broadcast use vstd::seq_lib::lemma_multiset_commutative;
    broadcast use vstd::seq_lib::group_to_multiset_ensures;
    assert(t.take(k) + t.skip(k) =~= t);
    assert(r == t.take(k).push(x) + t.skip(k));
    assert(t.take(k).push(x).to_multiset() =~= t.take(k).to_multiset().insert(x));
    assert((t.take(k) + t.skip(k)).to_multiset() =~= t.take(k).to_multiset().add(t.skip(k).to_multiset()));
    assert(r.to_multiset() =~= t.take(k).push(x).to_multiset().add(t.skip(k).to_multiset()));
    assert(r.to_multiset() =~= t.to_multiset().insert(x));
}

/// Sorting puts every endpoint in (tag, path, method) order and neither drops
/// nor doubles one.
pub proof fn sorting_orders_and_keeps_every_endpoint(s: Seq<EndpointV>)
    ensures
        keys_sorted(sort_spec(s)),
        sort_spec(s).to_multiset() == s.to_multiset(),
    decreases s.len(),
{
    broadcast use vstd::seq_lib::group_to_multiset_ensures;
    if s.len() > 0 {
        sorting_orders_and_keeps_every_endpoint(s.drop_last());
        lemma_insert_keeps_sorted(sort_spec(s.drop_last()), s.last());
        assert(s.drop_last().push(s.last()) =~= s);
        assert(s.drop_last().push(s.last()).to_multiset() =~= s.drop_last().to_multiset().insert(s.last()));
    } else {
        assert(sort_spec(s) =~= s);
    }
}

/// The document's endpoints come out grouped and ordered by tag, then path,
/// then method, so the view can group them by walking the list once.
pub proof fn parsed_endpoints_are_sorted(doc: JsonV)
    ensures
        keys_sorted(parse_spec(doc)),
{
    let comps = match get_spec(doc, "components"@) {
        Some(c) => match get_spec(c, "schemas"@) {
            Some(s) => s,
            None => JsonV::Object(Seq::empty()),
        },
        None => JsonV::Object(Seq::empty()),
    };
    match object_spec(get_spec(doc, "paths"@)) {
        Some(paths) => sorting_orders_and_keeps_every_endpoint(paths_endpoints(paths, comps)),
        None => {},
    }
}

/// The operations of one path the reference lists: those whose method,
/// upper-cased, is one of the five.
pub open spec fn listed_ops(ops: Seq<(Seq<char>, JsonV)>) -> nat
    decreases ops.len(),
{
    if ops.len() == 0 {
        0
    } else {
        listed_ops(ops.drop_last()) + if is_method(uppercase(ops.last().0)) {
            1nat
        } else {
            0nat
        }
    }
}

/// The listed operations over every path whose value is an object.
pub open spec fn listed_paths(paths: Seq<(Seq<char>, JsonV)>) -> nat
    decreases paths.len(),
{
    if paths.len() == 0 {
        0
    } else {
        listed_paths(paths.drop_last()) + match object_spec(Some(paths.last().1)) {
            Some(ops) => listed_ops(ops),
            None => 0nat,
        }
    }
}

/// Whether an endpoint is one the reference can list: one of the five
/// methods, and needing a key unless it is one of the open health routes.
pub open spec fn well_listed(e: EndpointV) -> bool {
    is_method(e.method) && e.auth == !is_open_route(e.path)
}

proof fn lemma_ops_endpoints(path: Seq<char>, ops: Seq<(Seq<char>, JsonV)>, comps: JsonV)
    ensures
        ops_endpoints(path, ops, comps).len() == listed_ops(ops),
        forall|i: int| 0 <= i < ops_endpoints(path, ops, comps).len() ==> well_listed(
            #[trigger] ops_endpoints(path, ops, comps)[i],
        ),
    decreases ops.len(),
{
    if ops.len() > 0 {
        lemma_ops_endpoints(path, ops.drop_last(), comps);
    }
}

proof fn lemma_paths_endpoints(paths: Seq<(Seq<char>, JsonV)>, comps: JsonV)
    ensures
        paths_endpoints(paths, comps).len() == listed_paths(paths),
        forall|i: int| 0 <= i < paths_endpoints(paths, comps).len() ==> well_listed(
            #[trigger] paths_endpoints(paths, comps)[i],
        ),
    decreases paths.len(),
{
    if paths.len() > 0 {
        lemma_paths_endpoints(paths.drop_last(), comps);
        let rest = paths_endpoints(paths.drop_last(), comps);
        match object_spec(Some(paths.last().1)) {
            Some(ops) => {
                lemma_ops_endpoints(paths.last().0, ops, comps);
                let more = ops_endpoints(paths.last().0, ops, comps);
                assert forall|i: int| 0 <= i < (rest + more).len() implies well_listed(#[trigger] (rest + more)[i]) by {
                    if i >= rest.len() {
                        assert((rest + more)[i] == more[i - rest.len()]);
                    } else {
                        assert((rest + more)[i] == rest[i]);
                    }
                }
            },
            None => {},
        }
    }
}

/// The reference lists one endpoint for each operation of the document whose
/// method is GET, POST, PUT, PATCH or DELETE, and no other; each needs a key
/// unless it is an open health route; a document without an object of paths
/// lists nothing.
pub proof fn parse_lists_each_operation_once(doc: JsonV)
    ensures
        forall|i: int| 0 <= i < parse_spec(doc).len() ==> well_listed(#[trigger] parse_spec(doc)[i]),
        match object_spec(get_spec(doc, "paths"@)) {
            Some(paths) => parse_spec(doc).len() == listed_paths(paths),
            None => parse_spec(doc).len() == 0,
        },
{
    broadcast use vstd::seq_lib::group_to_multiset_ensures;
    let comps = match get_spec(doc, "components"@) {
        Some(c) => match get_spec(c, "schemas"@) {
            Some(s) => s,
            None => JsonV::Object(Seq::empty()),
        },
        None => JsonV::Object(Seq::empty()),
    };
    match object_spec(get_spec(doc, "paths"@)) {
        Some(paths) => {
            let es = paths_endpoints(paths, comps);
            lemma_paths_endpoints(paths, comps);
            sorting_orders_and_keeps_every_endpoint(es);
            let r = sort_spec(es);
            assert(r.len() == es.len()) by {
                assert(r.to_multiset().len() == es.to_multiset().len());
            }
            assert forall|i: int| 0 <= i < r.len() implies well_listed(#[trigger] r[i]) by {
                assert(r.to_multiset().count(r[i]) > 0);
                assert(es.contains(r[i]));
                let w = choose|w: int| 0 <= w < es.len() && es[w] == r[i];
                assert(well_listed(es[w]));
            }
        },
        None => {},
    }
}

/// The operation at `b` of the path at `a` is one the reference lists, and
/// `e` is its entry.
#[verifier::opaque]
pub open spec fn entry_of_op(paths: Seq<(Seq<char>, JsonV)>, comps: JsonV, a: int, b: int, e: EndpointV) -> bool {
    &&& 0 <= a < paths.len()
    &&& object_spec(Some(paths[a].1)) matches Some(ops) && 0 <= b < ops.len() && is_method(
        uppercase(ops[b].0),
    ) && e == endpoint_of(paths[a].0, uppercase(ops[b].0), ops[b].1, comps)
}

/// `e` is the entry of some operation the reference lists.
pub open spec fn entry_of_some_op(paths: Seq<(Seq<char>, JsonV)>, comps: JsonV, e: EndpointV) -> bool {
    exists|a: int, b: int| #[trigger] entry_of_op(paths, comps, a, b, e)
}

proof fn lemma_ops_entries(path: Seq<char>, ops: Seq<(Seq<char>, JsonV)>, comps: JsonV)
    ensures
        forall|b: int|
            0 <= b < ops.len() && is_method(uppercase(ops[b].0)) ==> ops_endpoints(path, ops, comps).contains(
                endpoint_of(path, uppercase(#[trigger] ops[b].0), ops[b].1, comps),
            ),
        forall|i: int|
            #![trigger ops_endpoints(path, ops, comps)[i]]
            0 <= i < ops_endpoints(path, ops, comps).len() ==> exists|b: int|
                0 <= b < ops.len() && is_method(uppercase(#[trigger] ops[b].0))
                    && ops_endpoints(path, ops, comps)[i] == endpoint_of(path, uppercase(ops[b].0), ops[b].1, comps),
    decreases ops.len(),
{
    if ops.len() > 0 {
        let d = ops.drop_last();
        lemma_ops_entries(path, d, comps);
        let rest = ops_endpoints(path, d, comps);
        let all = ops_endpoints(path, ops, comps);
        assert forall|b: int| 0 <= b < ops.len() && is_method(uppercase(ops[b].0)) implies all.contains(
            endpoint_of(path, uppercase(#[trigger] ops[b].0), ops[b].1, comps),
        ) by {
            let e = endpoint_of(path, uppercase(ops[b].0), ops[b].1, comps);
            if b == ops.len() - 1 {
                assert(all[all.len() - 1] == e);
            } else {
                assert(d[b] == ops[b]);
                assert(rest.contains(e));
                let w = choose|w: int| 0 <= w < rest.len() && rest[w] == e;
                assert(all[w] == e);
            }
        }
        assert forall|i: int| #![trigger all[i]] 0 <= i < all.len() implies exists|b: int|
            0 <= b < ops.len() && is_method(uppercase(#[trigger] ops[b].0))
                && all[i] == endpoint_of(path, uppercase(ops[b].0), ops[b].1, comps) by {
            if i < rest.len() {
                assert(all[i] == rest[i]);
                let b = choose|b: int|
                    0 <= b < d.len() && is_method(uppercase(#[trigger] d[b].0))
                        && rest[i] == endpoint_of(path, uppercase(d[b].0), d[b].1, comps);
                assert(d[b] == ops[b]);
            } else {
                let b = ops.len() - 1;
                assert(is_method(uppercase(ops[b].0)));
            }
        }
    }
}

proof fn lemma_paths_entries(paths: Seq<(Seq<char>, JsonV)>, comps: JsonV)
    ensures
        forall|a: int, b: int, e: EndpointV|
            #[trigger] entry_of_op(paths, comps, a, b, e) ==> paths_endpoints(paths, comps).contains(e),
        forall|i: int|
            0 <= i < paths_endpoints(paths, comps).len() ==> entry_of_some_op(
                paths,
                comps,
                #[trigger] paths_endpoints(paths, comps)[i],
            ),
    decreases paths.len(),
{
    reveal(entry_of_op);
    if paths.len() > 0 {
        let d = paths.drop_last();
        lemma_paths_entries(d, comps);
        let rest = paths_endpoints(d, comps);
        let all = paths_endpoints(paths, comps);
        let last = paths.last();
        assert forall|a: int, b: int, e: EndpointV| #[trigger] entry_of_op(paths, comps, a, b, e) implies all.contains(e) by {
            if a < paths.len() - 1 {
                assert(d[a] == paths[a]);
                assert(entry_of_op(d, comps, a, b, e));
                let w = choose|w: int| 0 <= w < rest.len() && rest[w] == e;
                match object_spec(Some(last.1)) {
                    Some(ops) => {
                        assert(all[w] == (rest + ops_endpoints(last.0, ops, comps))[w]);
                    },
                    None => {},
                }
                assert(all[w] == e);
            } else {
                let ops = object_spec(Some(last.1))->0;
                lemma_ops_entries(last.0, ops, comps);
                let more = ops_endpoints(last.0, ops, comps);
                assert(more.contains(endpoint_of(last.0, uppercase(ops[b].0), ops[b].1, comps)));
                let w = choose|w: int| 0 <= w < more.len() && more[w] == e;
                assert(all == rest + more);
                assert(all[rest.len() + w] == e);
            }
        }
        assert forall|i: int| 0 <= i < all.len() implies entry_of_some_op(paths, comps, #[trigger] all[i]) by {
            if i < rest.len() {
                match object_spec(Some(last.1)) {
                    Some(ops) => {
                        assert(all[i] == (rest + ops_endpoints(last.0, ops, comps))[i]);
                    },
                    None => {},
                }
                assert(all[i] == rest[i]);
                assert(entry_of_some_op(d, comps, rest[i]));
                let (a, b) = choose|a: int, b: int| #[trigger] entry_of_op(d, comps, a, b, rest[i]);
                assert(d[a] == paths[a]);
                assert(entry_of_op(paths, comps, a, b, all[i]));
            } else {
                match object_spec(Some(last.1)) {
                    Some(ops) => {
                        lemma_ops_entries(last.0, ops, comps);
                        let more = ops_endpoints(last.0, ops, comps);
                        assert(all == rest + more);
                        assert(all[i] == more[i - rest.len()]);
                        let b = choose|b: int|
                            0 <= b < ops.len() && is_method(uppercase(#[trigger] ops[b].0))
                                && more[i - rest.len()] == endpoint_of(last.0, uppercase(ops[b].0), ops[b].1, comps);
                        assert(paths[paths.len() - 1] == last);
                        assert(entry_of_op(paths, comps, paths.len() - 1, b, all[i]));
                    },
                    None => {
                        assert(all == rest);
                    },
                }
            }
        }
    }
}

/// Every operation the document lists (a path's method that is GET, POST,
/// PUT, PATCH or DELETE once upper-cased) has its entry in the reference,
/// every entry is such an operation's, and the reference holds exactly as
/// many entries as there are such operations: one per operation.
pub proof fn parse_lists_every_operation_exactly_once(doc: JsonV)
    ensures
        match object_spec(get_spec(doc, "paths"@)) {
            Some(paths) => {
                let comps = match get_spec(doc, "components"@) {
                    Some(c) => match get_spec(c, "schemas"@) {
                        Some(s) => s,
                        None => JsonV::Object(Seq::empty()),
                    },
                    None => JsonV::Object(Seq::empty()),
                };
                &&& parse_spec(doc).len() == listed_paths(paths)
                &&& forall|a: int, b: int, e: EndpointV|
                    #[trigger] entry_of_op(paths, comps, a, b, e) ==> parse_spec(doc).contains(e)
                &&& forall|i: int|
                    0 <= i < parse_spec(doc).len() ==> entry_of_some_op(paths, comps, #[trigger] parse_spec(doc)[i])
            },
            None => parse_spec(doc).len() == 0,
        },
{
    broadcast use vstd::seq_lib::group_to_multiset_ensures;
    parse_lists_each_operation_once(doc);
    let comps = match get_spec(doc, "components"@) {
        Some(c) => match get_spec(c, "schemas"@) {
            Some(s) => s,
            None => JsonV::Object(Seq::empty()),
        },
        None => JsonV::Object(Seq::empty()),
    };
    match object_spec(get_spec(doc, "paths"@)) {
        Some(paths) => {
            let es = paths_endpoints(paths, comps);
            let r = sort_spec(es);
            lemma_paths_entries(paths, comps);
            sorting_orders_and_keeps_every_endpoint(es);
            assert(parse_spec(doc) == r);
            assert forall|a: int, b: int, e: EndpointV| #[trigger] entry_of_op(paths, comps, a, b, e) implies r.contains(e) by {
                assert(es.contains(e));
                assert(es.to_multiset().count(e) > 0);
                assert(r.to_multiset().count(e) > 0);
            }
            assert forall|i: int| 0 <= i < r.len() implies entry_of_some_op(paths, comps, #[trigger] r[i]) by {
                assert(r.to_multiset().count(r[i]) > 0);
                assert(es.contains(r[i]));
                let w = choose|w: int| 0 <= w < es.len() && es[w] == r[i];
                assert(entry_of_some_op(paths, comps, es[w]));
                let (a, b) = choose|a: int, b: int| #[trigger] entry_of_op(paths, comps, a, b, es[w]);
                assert(entry_of_op(paths, comps, a, b, r[i]));
            }
        },
        None => {},
    }
}

proof fn lemma_contains_mid(a: Seq<char>, t: Seq<char>, b: Seq<char>)
    ensures
        contains_seq(a + t + b, t),
{
    assert((a + t + b).subrange(a.len() as int, (a.len() + t.len()) as int) =~= t);
}

/// Every snippet names the server's own origin; the curl one checks its
/// health at `{origin}/health` and starts a process at the quoted
/// `"{origin}/api/v1/processes"`; the OpenAI one points the client at
/// `base_url="{origin}/v1"`.
pub proof fn every_snippet_names_the_origin(origin: Seq<char>)
    ensures
        contains_seq(snippet_spec(Snippet::Curl, origin), origin),
        contains_seq(snippet_spec(Snippet::Python, origin), origin),
        contains_seq(snippet_spec(Snippet::OpenAi, origin), origin),
        contains_seq(snippet_spec(Snippet::Curl, origin), "curl "@ + origin + "/health"@),
        contains_seq(snippet_spec(Snippet::Curl, origin), "\""@ + origin + "/api/v1/processes\""@),
        contains_seq(snippet_spec(Snippet::OpenAi, origin), "base_url=\""@ + origin + "/v1\""@),
{
    let c = snippet_spec(Snippet::Curl, origin);
    let health = "curl "@ + origin + "/health"@;
    let pre = "# liveness — no key needed\n"@;
    let c_rest = c.skip((pre.len() + health.len()) as int);
    assert(c =~= pre + health + c_rest);
    lemma_contains_mid(pre, health, c_rest);
    reveal_strlit("curl ");
    let c_tail = c.skip((pre.len() + 5 + origin.len()) as int);
    assert(c =~= (pre + "curl "@) + origin + c_tail);
    lemma_contains_mid(pre + "curl "@, origin, c_tail);
    let procs = "\""@ + origin + "/api/v1/processes\""@;
    let p_pre = "# liveness — no key needed\n"@ + health
        + "\n\n# every other call carries the bearer token\ncurl -H \"Authorization: Bearer $KEY\" "@ + origin
        + "/api/v1/projects/\n\n# start a multi-agent process; answers {\"process_id\": N, \"status\": ...}\ncurl -X POST "@;
    let p_rest = c.skip((p_pre.len() + procs.len()) as int);
    assert(c =~= p_pre + procs + p_rest);
    lemma_contains_mid(p_pre, procs, p_rest);
    let py = snippet_spec(Snippet::Python, origin);
    let py_pre = "import requests\n\nBASE = \""@;
    let py_rest = py.skip((py_pre.len() + origin.len()) as int);
    assert(py =~= py_pre + origin + py_rest);
    lemma_contains_mid(py_pre, origin, py_rest);
    let oa = snippet_spec(Snippet::OpenAi, origin);
    let base = "base_url=\""@ + origin + "/v1\""@;
    let oa_pre = "# The /v1 surface is OpenAI-compatible, so any OpenAI client works:\n#   pip install openai\nfrom openai import OpenAI\n\nllm = OpenAI("@;
    let oa_rest = oa.skip((oa_pre.len() + base.len()) as int);
    assert(oa =~= oa_pre + base + oa_rest);
    lemma_contains_mid(oa_pre, base, oa_rest);
    let oa_tail = oa.skip((oa_pre.len() + 10 + origin.len()) as int);
    reveal_strlit("base_url=\"");
    assert(oa =~= (oa_pre + "base_url=\""@) + origin + oa_tail);
    lemma_contains_mid(oa_pre + "base_url=\""@, origin, oa_tail);
}

/// Text with no line break in it.
pub open spec fn one_line(t: Seq<char>) -> bool {
    forall|i: int| 0 <= i < t.len() ==> #[trigger] t[i] != '\n' && t[i] != '\r'
}

proof fn lemma_one_line_cat(a: Seq<char>, b: Seq<char>)
    requires
        one_line(a),
        one_line(b),
    ensures
        one_line(a + b),
{
    assert forall|i: int| 0 <= i < (a + b).len() implies #[trigger] (a + b)[i] != '\n' && (a + b)[i] != '\r' by {
        if i < a.len() {
            assert((a + b)[i] == a[i]);
        } else {
            assert((a + b)[i] == b[i - a.len()]);
        }
    }
}

proof fn lemma_query_one_line(ps: Seq<ParamV>)
    requires
        forall|k: int| 0 <= k < ps.len() ==> one_line(#[trigger] ps[k].0),
    ensures
        one_line(query_spec(ps)),
    decreases ps.len(),
{
    reveal_strlit("=<");
    reveal_strlit(">");
    reveal_strlit("&");
    if ps.len() > 0 {
        let d = ps.drop_last();
        assert forall|k: int| 0 <= k < d.len() implies one_line(#[trigger] d[k].0) by {
            assert(d[k] == ps[k]);
        }
        lemma_query_one_line(d);
        let p = ps.last();
        assert(one_line(p.0));
        assert(one_line("=<"@));
        assert(one_line(">"@));
        assert(one_line("&"@));
        lemma_one_line_cat(p.0, "=<"@);
        lemma_one_line_cat(p.0 + "=<"@, p.0);
        lemma_one_line_cat(p.0 + "=<"@ + p.0, ">"@);
        let item = p.0 + "=<"@ + p.0 + ">"@;
        let rest = query_spec(d);
        lemma_one_line_cat(rest, "&"@);
        lemma_one_line_cat(rest + "&"@, item);
    }
}

/// The curl line for an endpoint. It is one line when nothing it is built
/// from breaks a line. It starts `curl -X ` exactly when the method is not
/// GET. A route that needs a key carries the bearer header right after the
/// quoted URL, with the key or `<key>` when there is none, and an open route
/// carries nothing there. A body comes last, after its JSON content type,
/// and without one the line ends with the URL or the header.
pub proof fn the_curl_line_says_what_the_route_needs(e: EndpointV, origin: Seq<char>, key: Seq<char>)
    ensures
        ({
            let r = curl_spec(e, origin, key);
            let q = query_spec(e.params);
            let head = "curl "@ + if e.method == "GET"@ {
                Seq::empty()
            } else {
                "-X "@ + e.method + " "@
            };
            let url = "\""@ + origin + e.path + (if q.len() == 0 {
                Seq::empty()
            } else {
                "?"@ + q
            }) + "\""@;
            let bearer = " -H \"Authorization: Bearer "@ + (if key.len() == 0 {
                "<key>"@
            } else {
                key
            }) + "\""@;
            &&& ("curl -X "@.is_prefix_of(r) <==> e.method != "GET"@)
            &&& e.auth ==> (head + url + bearer).is_prefix_of(r)
            &&& !e.auth ==> (head + url).is_prefix_of(r) && r.skip((head + url).len() as int)
                == match e.body_compact {
                Some(b) => " -H \"Content-Type: application/json\" -d '"@ + b + "'"@,
                None => Seq::<char>::empty(),
            }
            &&& match e.body_compact {
                Some(b) => (" -H \"Content-Type: application/json\" -d '"@ + b + "'"@).is_suffix_of(r),
                None => r == head + url + (if e.auth {
                    bearer
                } else {
                    Seq::empty()
                }),
            }
            &&& (one_line(origin) && one_line(key) && one_line(e.method) && one_line(e.path)
                && (forall|k: int| 0 <= k < e.params.len() ==> one_line(#[trigger] e.params[k].0))
                && (e.body_compact matches Some(b) ==> one_line(b))) ==> one_line(r)
        }),
{
    let r = curl_spec(e, origin, key);
    let q = query_spec(e.params);
    reveal_strlit("curl -X ");
    reveal_strlit("curl ");
    reveal_strlit("-X ");
    reveal_strlit("\"");
    reveal_strlit("GET");
    let head = "curl "@ + if e.method == "GET"@ {
        Seq::empty()
    } else {
        "-X "@ + e.method + " "@
    };
    let url = "\""@ + origin + e.path + (if q.len() == 0 {
        Seq::empty()
    } else {
        "?"@ + q
    }) + "\""@;
    let bearer = " -H \"Authorization: Bearer "@ + (if key.len() == 0 {
        "<key>"@
    } else {
        key
    }) + "\""@;
    let auth = if e.auth { bearer } else { Seq::empty() };
    let bodyp = match e.body_compact {
        Some(b) => " -H \"Content-Type: application/json\" -d '"@ + b + "'"@,
        None => Seq::empty(),
    };
    assert(r == head + url + auth + bodyp);
    if e.method == "GET"@ {
        assert(r[5] == '\"');
        assert("curl -X "@[5] == '-');
        assert(!"curl -X "@.is_prefix_of(r));
    } else {
        assert(r.take(8) =~= "curl -X "@);
    }
    assert((head + url + auth).is_prefix_of(r)) by {
        assert(r.take((head + url + auth).len() as int) =~= head + url + auth);
    }
    if e.auth {
        assert(r.take((head + url + bearer).len() as int) =~= head + url + bearer);
    } else {
        assert(r.take((head + url).len() as int) =~= head + url);
        assert(r.skip((head + url).len() as int) =~= bodyp);
    }
    match e.body_compact {
        Some(b) => {
            assert(r.skip(r.len() - bodyp.len()) =~= bodyp);
        },
        None => {
            assert(r =~= head + url + auth);
        },
    }
    if one_line(origin) && one_line(key) && one_line(e.method) && one_line(e.path) && (forall|k: int|
        0 <= k < e.params.len() ==> one_line(#[trigger] e.params[k].0)) && (e.body_compact matches Some(
        b,
    ) ==> one_line(b)) {
        reveal_strlit(" ");
        reveal_strlit("?");
        reveal_strlit(" -H \"Authorization: Bearer ");
        reveal_strlit("<key>");
        reveal_strlit(" -H \"Content-Type: application/json\" -d '");
        reveal_strlit("'");
        lemma_query_one_line(e.params);
        assert(one_line("curl "@));
        assert(one_line("-X "@));
        assert(one_line(" "@));
        assert(one_line("\""@));
        assert(one_line("?"@));
        assert(one_line(" -H \"Authorization: Bearer "@));
        assert(one_line("<key>"@));
        assert(one_line(" -H \"Content-Type: application/json\" -d '"@));
        assert(one_line("'"@));
        assert(one_line(Seq::<char>::empty()));
        lemma_one_line_cat("-X "@, e.method);
        lemma_one_line_cat("-X "@ + e.method, " "@);
        lemma_one_line_cat("curl "@, Seq::<char>::empty());
        lemma_one_line_cat("curl "@, "-X "@ + e.method + " "@);
        lemma_one_line_cat("?"@, q);
        lemma_one_line_cat("\""@, origin);
        lemma_one_line_cat("\""@ + origin, e.path);
        lemma_one_line_cat("\""@ + origin + e.path, Seq::<char>::empty());
        lemma_one_line_cat("\""@ + origin + e.path, "?"@ + q);
        lemma_one_line_cat(
            "\""@ + origin + e.path + (if q.len() == 0 {
                Seq::empty()
            } else {
                "?"@ + q
            }),
            "\""@,
        );
        lemma_one_line_cat(" -H \"Authorization: Bearer "@, "<key>"@);
        lemma_one_line_cat(" -H \"Authorization: Bearer "@, key);
        lemma_one_line_cat(
            " -H \"Authorization: Bearer "@ + (if key.len() == 0 {
                "<key>"@
            } else {
                key
            }),
            "\""@,
        );
        match e.body_compact {
            Some(b) => {
                lemma_one_line_cat(" -H \"Content-Type: application/json\" -d '"@, b);
                lemma_one_line_cat(" -H \"Content-Type: application/json\" -d '"@ + b, "'"@);
            },
            None => {},
        }
        lemma_one_line_cat(head, url);
        lemma_one_line_cat(head + url, auth);
        lemma_one_line_cat(head + url + auth, bodyp);
    }
}

/// The parameters a curl line has to fill in: the required query ones, in
/// the order they are declared.
pub open spec fn required_query(ps: Seq<ParamV>) -> Seq<ParamV> {
    ps.filter(|p: ParamV| p.1 == "query"@ && p.2)
}

/// One filled-in query parameter: `name=<name>`.
pub open spec fn query_item(p: ParamV) -> Seq<char> {
    p.0 + "=<"@ + p.0 + ">"@
}

/// Items joined with `&` between each two.
pub open spec fn amp_joined(items: Seq<Seq<char>>) -> Seq<char>
    decreases items.len(),
{
    if items.len() == 0 {
        Seq::empty()
    } else if items.len() == 1 {
        items[0]
    } else {
        amp_joined(items.drop_last()) + "&"@ + items.last()
    }
}

/// The `&`s that `amp_joined` puts in: one between each two items, as a
/// count of the separators that fall between whole items.
proof fn lemma_amp_joined_parts(items: Seq<Seq<char>>, k: int)
    requires
        0 <= k < items.len(),
    ensures
        contains_seq(amp_joined(items), items[k]),
    decreases items.len(),
{
    let d = items.drop_last();
    let j = amp_joined(items);
    if items.len() == 1 {
        assert(k == 0);
        assert(j == items[0]);
        let i0: int = 0;
        assert(j.subrange(i0, i0 + items[k].len()) =~= items[k]);
        assert(contains_seq(j, items[k]));
    } else if k == items.len() - 1 {
        let a = amp_joined(d) + "&"@;
        assert(j == a + items.last());
        assert(j.subrange(a.len() as int, (a.len() + items[k].len()) as int) =~= items[k]);
        assert(contains_seq(j, items[k]));
    } else {
        assert(d[k] == items[k]);
        lemma_amp_joined_parts(d, k);
        let w = choose|w: int| 0 <= w && w + items[k].len() <= amp_joined(d).len() && #[trigger] amp_joined(d).subrange(w, w + items[k].len()) == items[k];
        assert(j == amp_joined(d) + "&"@ + items.last());
        assert(j.subrange(w, w + items[k].len()) =~= amp_joined(d).subrange(w, w + items[k].len()));
        assert(contains_seq(j, items[k]));
    }
}

proof fn lemma_query_is_joined(ps: Seq<ParamV>)
    ensures
        query_spec(ps) == amp_joined(required_query(ps).map_values(|p: ParamV| query_item(p))),
    decreases ps.len(),
{
    reveal_strlit("=<");
    reveal_strlit(">");
    reveal(Seq::filter);
    if ps.len() == 0 {
        assert(required_query(ps) =~= Seq::<ParamV>::empty());
        assert(required_query(ps).map_values(|p: ParamV| query_item(p)) =~= Seq::<Seq<char>>::empty());
    } else {
        let d = ps.drop_last();
        lemma_query_is_joined(d);
        assert(ps.drop_last() == d);
        let rd = required_query(d);
        let items_d = rd.map_values(|p: ParamV| query_item(p));
        let p = ps.last();
        if p.1 == "query"@ && p.2 {
            assert(required_query(ps) == rd.push(p));
            let items = required_query(ps).map_values(|p: ParamV| query_item(p));
            assert(items =~= items_d.push(query_item(p)));
            assert(items.drop_last() =~= items_d);
            if rd.len() == 0 {
                assert(query_spec(d).len() == 0);
            } else {
                assert(items_d[0].len() >= 3);
                if items_d.len() == 1 {
                    assert(amp_joined(items_d).len() > 0);
                } else {
                    assert(amp_joined(items_d).len() >= 1);
                }
                assert(query_spec(d).len() > 0);
            }
        } else {
            assert(required_query(ps) == rd);
        }
    }
}

/// The query string of a curl line fills in every required query
/// parameter, in the order declared, each as `name=<name>`, with `&`
/// between each two and nothing else; the URL carries it after a `?` when
/// there is any.
pub proof fn every_required_query_parameter_is_in_the_url(e: EndpointV, origin: Seq<char>, key: Seq<char>)
    ensures
        ({
            let req = required_query(e.params);
            let items = req.map_values(|p: ParamV| query_item(p));
            let q = query_spec(e.params);
            &&& q == amp_joined(items)
            &&& forall|k: int| 0 <= k < req.len() ==> contains_seq(q, query_item(#[trigger] req[k]))
            &&& (req.len() == 0) == (q.len() == 0)
            &&& req.len() > 0 ==> contains_seq(curl_spec(e, origin, key), "?"@ + q + "\""@)
        }),
{
    reveal_strlit("=<");
    reveal_strlit(">");
    let req = required_query(e.params);
    let items = req.map_values(|p: ParamV| query_item(p));
    let q = query_spec(e.params);
    lemma_query_is_joined(e.params);
    assert forall|k: int| 0 <= k < req.len() implies contains_seq(q, query_item(#[trigger] req[k])) by {
        assert(items[k] == query_item(req[k]));
        lemma_amp_joined_parts(items, k);
    }
    if req.len() > 0 {
        assert(items[0].len() >= 3);
        if items.len() > 1 {
            assert(amp_joined(items).len() >= 1);
        }
        let r = curl_spec(e, origin, key);
        let head = "curl "@ + if e.method == "GET"@ {
            Seq::empty()
        } else {
            "-X "@ + e.method + " "@
        };
        let a = head + "\""@ + origin + e.path;
        let t = "?"@ + q + "\""@;
        let rest = r.skip((a.len() + t.len()) as int);
        assert(r =~= a + t + rest);
        assert((a + t + rest).subrange(a.len() as int, (a.len() + t.len()) as int) =~= t);
    }
}

} // verus!
