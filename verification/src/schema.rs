//! The JSON Schema that the model fills in and submits when it ends a call.
use serde_json::Value;
use vstd::prelude::*;

use crate::json::{
    array_len, as_text, contents, insert, is_array, is_object, item, items_of, keys, member,
    new_array, new_bool, new_object, new_text, parse, parsed, Json,
};
use crate::text::same;

verus! {

/// The description of the `amd` field.
pub const AMD_DESCRIPTION: &'static str =
    "What the far end is: `live` for a real person you conversed with; otherwise the non-live kind you detected.";

/// The kinds of far end that the `amd` field can name.
pub open spec fn amd_kinds() -> Seq<Json> {
    seq![
        Json::Text("live"@),
        Json::Text("voicemail"@),
        Json::Text("announcement"@),
        Json::Text("ivr"@),
        Json::Text("hold"@),
    ]
}

/// The schema of the `amd` field.
pub open spec fn amd_property() -> Json {
    Json::Object(
        Map::empty().insert("type"@, Json::Text("string"@)).insert(
            "enum"@,
            Json::Array(amd_kinds()),
        ).insert("description"@, Json::Text(AMD_DESCRIPTION@)),
    )
}

/// What `m` holds under `key`, or `other`.
pub open spec fn member_or(m: Map<Seq<char>, Json>, key: Seq<char>, other: Json) -> Json {
    if m.contains_key(key) {
        m[key]
    } else {
        other
    }
}

/// The schema's properties with `amd` among them; what is no object stays.
pub open spec fn with_amd(properties: Json) -> Json {
    match properties {
        Json::Object(p) => Json::Object(p.insert("amd"@, amd_property())),
        other => other,
    }
}

/// The schema's required fields with `amd` among them; what is no array stays.
pub open spec fn requiring_amd(required: Json) -> Json {
    match required {
        Json::Array(a) => if exists|i: int| 0 <= i < a.len() && a[i] == Json::Text("amd"@) {
            required
        } else {
            Json::Array(a.push(Json::Text("amd"@)))
        },
        other => other,
    }
}

/// The schema that is meant: a text that is a JSON object stands for that object.
pub open spec fn unwrapped(schema: Json) -> Json {
    match schema {
        Json::Text(s) => match parsed(s) {
            Some(v) => if v is Object {
                v
            } else {
                schema
            },
            None => schema,
        },
        _ => schema,
    }
}

/// An object schema with a type, the `amd` property and `amd` required; anything else as it is.
pub open spec fn with_amd_field(schema: Json) -> Json {
    match schema {
        Json::Object(m) => Json::Object(
            m.insert("type"@, member_or(m, "type"@, Json::Text("object"@))).insert(
                "properties"@,
                with_amd(member_or(m, "properties"@, Json::Object(Map::empty()))),
            ).insert(
                "required"@,
                requiring_amd(member_or(m, "required"@, Json::Array(Seq::empty()))),
            ),
        ),
        other => other,
    }
}

fn amd_schema() -> (r: Value)
    ensures
        contents(r) == amd_property(),
{
    let kinds: Vec<Value> = vec![
        new_text("live"),
        new_text("voicemail"),
        new_text("announcement"),
        new_text("ivr"),
        new_text("hold"),
    ];
    assert(items_of(kinds@) =~= amd_kinds());
    let mut v: Value = new_object();
    insert(&mut v, "type", new_text("string"));
    insert(&mut v, "enum", new_array(kinds));
    insert(&mut v, "description", new_text(AMD_DESCRIPTION));
    v
}

/// Whether `amd` is among the items of an array.
fn lists_amd(v: &Value) -> (r: bool)
    requires
        contents(*v) is Array,
    ensures
        r == exists|i: int|
            0 <= i < contents(*v)->Array_0.len() && contents(*v)->Array_0[i] == Json::Text("amd"@),
{
    let n: usize = array_len(v);
    let mut i: usize = 0;
    while i < n
        invariant
            contents(*v) is Array,
            n == contents(*v)->Array_0.len(),
            i <= n,
            forall|j: int| 0 <= j < i ==> contents(*v)->Array_0[j] != Json::Text("amd"@),
        decreases n - i,
    {
        if let Some(x) = item(v, i) {
            if let Some(s) = as_text(x) {
                if same(s, "amd") {
                    assert(contents(*v)->Array_0[i as int] == Json::Text("amd"@));
                    return true;
                }
            }
        }
        i = i + 1;
    }
    false
}

/// The items of an array.
fn items(v: &Value) -> (r: Vec<Value>)
    requires
        contents(*v) is Array,
    ensures
        items_of(r@) == contents(*v)->Array_0,
{
    let n: usize = array_len(v);
    let mut out: Vec<Value> = Vec::new();
    let mut i: usize = 0;
    while i < n
        invariant
            contents(*v) is Array,
            n == contents(*v)->Array_0.len(),
            i <= n,
            out@.len() == i,
            forall|j: int|
                0 <= j < i ==> contents(#[trigger] out@[j]) == contents(*v)->Array_0[j],
        decreases n - i,
    {
        if let Some(x) = item(v, i) {
            out.push(x.clone());
        }
        i = i + 1;
    }
    assert(items_of(out@) =~= contents(*v)->Array_0);
    out
}

/// Inject the standard `amd` field into a caller-supplied `goal_schema`, so the model always
/// reports what it reached via the single `end_call` tool. The caller's own fields are untouched;
/// a top-level `amd` enum is added (and marked required). An object that comes as a JSON string is
/// read first. What is no object is returned unchanged.
pub fn augment_goal_schema(schema: &Value) -> (r: Value)
    ensures
        contents(r) == with_amd_field(unwrapped(contents(*schema))),
{
    let mut s: Value = match as_text(schema) {
        Some(text) => match parse(text) {
            Ok(v) => if is_object(&v) {
                v
            } else {
                schema.clone()
            },
            Err(_) => schema.clone(),
        },
        None => schema.clone(),
    };
    if !is_object(&s) {
        return s;
    }
    let ghost m = contents(s)->Object_0;
    if member(&s, "type").is_none() {
        insert(&mut s, "type", new_text("object"));
    }
    proof {
        reveal_strlit("type");
        reveal_strlit("properties");
        reveal_strlit("required");
        assert("type"@.len() == 4 && "properties"@.len() == 10 && "required"@.len() == 8);
        assert(contents(s)->Object_0 =~= m.insert(
            "type"@,
            member_or(m, "type"@, Json::Text("object"@)),
        ));
    }
    let mut properties: Value = match member(&s, "properties") {
        Some(p) => p.clone(),
        None => new_object(),
    };
    if is_object(&properties) {
        insert(&mut properties, "amd", amd_schema());
    }
    insert(&mut s, "properties", properties);
    let required: Value = match member(&s, "required") {
        Some(q) => q.clone(),
        None => {
            let none: Vec<Value> = Vec::new();
            assert(items_of(none@) =~= Seq::empty());
            new_array(none)
        },
    };
    let required: Value = if is_array(&required) && !lists_amd(&required) {
        let mut a: Vec<Value> = items(&required);
        let ghost before = a@;
        a.push(new_text("amd"));
        assert(items_of(a@) =~= items_of(before).push(Json::Text("amd"@)));
        new_array(a)
    } else {
        required
    };
    insert(&mut s, "required", required);
    s
}

/// Keywords that the model's function-parameter schema does not know. They are validation or
/// metadata, not structural type information.
pub open spec fn unsupported(key: Seq<char>) -> bool {
    ||| key == "additionalProperties"@
    ||| key == "unevaluatedProperties"@
    ||| key == "patternProperties"@
    ||| key == "additionalItems"@
    ||| key == "unevaluatedItems"@
    ||| key == "$schema"@
    ||| key == "$id"@
    ||| key == "$defs"@
    ||| key == "definitions"@
    ||| key == "examples"@
}

fn is_unsupported(key: &str) -> (r: bool)
    ensures
        r == unsupported(key@),
{
    same(key, "additionalProperties") || same(key, "unevaluatedProperties") || same(
        key,
        "patternProperties",
    ) || same(key, "additionalItems") || same(key, "unevaluatedItems") || same(key, "$schema")
        || same(key, "$id") || same(key, "$defs") || same(key, "definitions") || same(
        key,
        "examples",
    )
}

/// Whether a list of types admits null.
pub open spec fn admits_null(types: Seq<Json>) -> bool {
    exists|i: int| 0 <= i < types.len() && types[i] == Json::Text("null"@)
}

/// The place of the first type from `i` on that is not null; the length of the list if there is
/// none.
pub open spec fn first_type(types: Seq<Json>, i: int) -> int
    decreases types.len() - i,
{
    if i < 0 || i >= types.len() {
        types.len() as int
    } else if types[i] != Json::Text("null"@) {
        i
    } else {
        first_type(types, i + 1)
    }
}

/// Whether the schema's `type` is a list.
pub open spec fn lists_types(m: Map<Seq<char>, Json>) -> bool {
    m.contains_key("type"@) && m["type"@] is Array
}

/// Whether the schema becomes `nullable`.
pub open spec fn turns_nullable(m: Map<Seq<char>, Json>) -> bool {
    lists_types(m) && admits_null(m["type"@]->Array_0)
}

/// Whether the schema's list of types becomes its first type that is not null.
pub open spec fn folds_type(m: Map<Seq<char>, Json>) -> bool {
    lists_types(m) && first_type(m["type"@]->Array_0, 0) < m["type"@]->Array_0.len()
}

/// A schema in the subset that the model's function parameters know: in every object the
/// unsupported keywords are gone, and a list of types is its first type that is not null, with
/// `nullable` set where null was among them.
pub open spec fn sanitized(j: Json) -> Json
    decreases j,
{
    match j {
        Json::Array(a) => Json::Array(
            Seq::new(
                a.len(),
                |i: int|
                    if 0 <= i < a.len() {
                        sanitized(a[i])
                    } else {
                        Json::Null
                    },
            ),
        ),
        Json::Object(m) => Json::Object(
            Map::new(
                |k: Seq<char>|
                    (m.contains_key(k) && !unsupported(k)) || (turns_nullable(m) && k
                        == "nullable"@),
                |k: Seq<char>|
                    if turns_nullable(m) && k == "nullable"@ {
                        Json::Bool(true)
                    } else if folds_type(m) && k == "type"@ && m.contains_key(k)
                        && m[k] is Array && 0 <= first_type(m[k]->Array_0, 0)
                        < m[k]->Array_0.len() {
                        sanitized(m[k]->Array_0[first_type(m[k]->Array_0, 0)])
                    } else if m.contains_key(k) {
                        sanitized(m[k])
                    } else {
                        Json::Null
                    },
            ),
        ),
        _ => j,
    }
}

/// Whether null is among the types of a list.
fn has_null(v: &Value) -> (r: bool)
    requires
        contents(*v) is Array,
    ensures
        r == admits_null(contents(*v)->Array_0),
{
    let n: usize = array_len(v);
    let mut i: usize = 0;
    while i < n
        invariant
            contents(*v) is Array,
            n == contents(*v)->Array_0.len(),
            i <= n,
            forall|j: int| 0 <= j < i ==> contents(*v)->Array_0[j] != Json::Text("null"@),
        decreases n - i,
    {
        if let Some(x) = item(v, i) {
            if let Some(s) = as_text(x) {
                if same(s, "null") {
                    assert(contents(*v)->Array_0[i as int] == Json::Text("null"@));
                    return true;
                }
            }
        }
        i = i + 1;
    }
    false
}

/// The first type of a list that is not null.
fn first_of(v: &Value) -> (r: Option<&Value>)
    requires
        contents(*v) is Array,
    ensures
        ({
            let types = contents(*v)->Array_0;
            match r {
                Some(x) => 0 <= first_type(types, 0) < types.len() && contents(*x)
                    == types[first_type(types, 0)],
                None => first_type(types, 0) == types.len(),
            }
        }),
{
    let n: usize = array_len(v);
    let mut i: usize = 0;
    while i < n
        invariant
            contents(*v) is Array,
            n == contents(*v)->Array_0.len(),
            i <= n,
            first_type(contents(*v)->Array_0, 0) == first_type(contents(*v)->Array_0, i as int),
        decreases n - i,
    {
        if let Some(x) = item(v, i) {
            match as_text(x) {
                Some(s) => {
                    if !same(s, "null") {
                        return Some(x);
                    }
                },
                None => {
                    return Some(x);
                },
            }
        }
        i = i + 1;
    }
    None
}

/// A copy of `v` in the model's schema subset.
fn sanitize(v: &Value) -> (r: Value)
    ensures
        contents(r) == sanitized(contents(*v)),
    decreases contents(*v),
{
    let ghost j = contents(*v);
    if is_array(v) {
        let n: usize = array_len(v);
        let ghost a = j->Array_0;
        let mut out: Vec<Value> = Vec::new();
        let mut i: usize = 0;
        while i < n
            invariant
                j == contents(*v),
                j is Array,
                a == j->Array_0,
                n == a.len(),
                i <= n,
                out@.len() == i,
                forall|k: int| 0 <= k < i ==> contents(#[trigger] out@[k]) == sanitized(a[k]),
            decreases n - i,
        {
            if let Some(x) = item(v, i) {
                assert(decreases_to!(j => j->Array_0));
                assert(decreases_to!(a => a[i as int]));
                out.push(sanitize(x));
            }
            i = i + 1;
        }
        assert(items_of(out@) =~= sanitized(j)->Array_0);
        return new_array(out);
    }
    if !is_object(v) {
        return v.clone();
    }
    let ghost m = j->Object_0;
    let ghost target = sanitized(j)->Object_0;
    let ks: Vec<String> = keys(v);
    let mut out: Value = new_object();
    let mut i: usize = 0;
    while i < ks.len()
        invariant
            j == contents(*v),
            j is Object,
            m == j->Object_0,
            target == sanitized(j)->Object_0,
            i <= ks@.len(),
            contents(out) is Object,
            forall|k: int| 0 <= k < ks@.len() ==> m.contains_key((#[trigger] ks@[k])@),
            forall|k: Seq<char>| #[trigger]
                m.contains_key(k) ==> exists|q: int| 0 <= q < ks@.len() && (#[trigger] ks@[q])@ == k,
            forall|k: Seq<char>| #[trigger]
                contents(out)->Object_0.contains_key(k) ==> m.contains_key(k) && !unsupported(k)
                    && (contents(out)->Object_0[k] == target[k] || (turns_nullable(m) && k
                    == "nullable"@)),
            forall|q: int|
                0 <= q < i && !unsupported((#[trigger] ks@[q])@)
                    ==> contents(out)->Object_0.contains_key(ks@[q]@),
        decreases ks@.len() - i,
    {
        let key: &str = ks[i].as_str();
        assert(m.contains_key(ks@[i as int]@));
        if !is_unsupported(key) {
            if let Some(x) = member(v, key) {
                assert(decreases_to!(j => j->Object_0[key@]));
                let child: Value = if same(key, "type") && is_array(x) {
                    match first_of(x) {
                        Some(t) => {
                            proof {
                                let types = m[key@]->Array_0;
                                assert(decreases_to!(m[key@] => m[key@]->Array_0));
                                assert(decreases_to!(types => types[first_type(types, 0)]));
                            }
                            sanitize(t)
                        },
                        None => sanitize(x),
                    }
                } else {
                    sanitize(x)
                };
                proof {
                    reveal_strlit("nullable");
                    reveal_strlit("type");
                    assert("nullable"@.len() != "type"@.len());
                }
                insert(&mut out, key, child);
            }
        }
        i = i + 1;
    }
    let nullable: bool = match member(v, "type") {
        Some(t) => is_array(t) && has_null(t),
        None => false,
    };
    if nullable {
        insert(&mut out, "nullable", new_bool(true));
    }
    assert(contents(out)->Object_0 =~= target);
    out
}

/// Recursively drop the unsupported keywords from every object node of a JSON Schema, and fold
/// each list of types, so that it fits the model's function-parameter schema subset.
pub fn sanitize_gemini_schema(v: &mut Value)
    ensures
        contents(*final(v)) == sanitized(contents(*old(v))),
{
    let s: Value = sanitize(v);
    *v = s;
}

/// Whether no object in `j`, at any depth, holds an unsupported keyword.
pub open spec fn free_of_unsupported(j: Json) -> bool
    decreases j,
{
    match j {
        Json::Array(a) => forall|i: int|
            0 <= i < a.len() ==> free_of_unsupported(#[trigger] a[i]),
        Json::Object(m) => forall|k: Seq<char>| #[trigger]
            m.contains_key(k) ==> !unsupported(k) && free_of_unsupported(m[k]),
        _ => true,
    }
}

/// After sanitizing, no object at any depth holds an unsupported keyword.
pub proof fn sanitizing_strips_unsupported(j: Json)
    ensures
        free_of_unsupported(sanitized(j)),
    decreases j,
{
    match j {
        Json::Array(a) => {
            let out = sanitized(j)->Array_0;
            assert forall|i: int| 0 <= i < out.len() implies free_of_unsupported(
                #[trigger] out[i],
            ) by {
                assert(decreases_to!(a => a[i]));
                sanitizing_strips_unsupported(a[i]);
            }
        },
        Json::Object(m) => {
            let out = sanitized(j)->Object_0;
            assert forall|k: Seq<char>| #[trigger] out.contains_key(k) implies !unsupported(k)
                && free_of_unsupported(out[k]) by {
                lemma_supported_keys();
                if !(turns_nullable(m) && k == "nullable"@) {
                    assert(decreases_to!(j => j->Object_0[k]));
                    if folds_type(m) && k == "type"@ {
                        let types = m[k]->Array_0;
                        lemma_first_type(types, 0);
                        assert(decreases_to!(m[k] => m[k]->Array_0));
                        assert(decreases_to!(types => types[first_type(types, 0)]));
                        sanitizing_strips_unsupported(types[first_type(types, 0)]);
                    } else {
                        sanitizing_strips_unsupported(m[k]);
                    }
                }
            }
        },
        _ => {},
    }
}

proof fn lemma_first_type(types: Seq<Json>, i: int)
    requires
        0 <= i <= types.len(),
    ensures
        i <= first_type(types, i) <= types.len(),
        first_type(types, i) < types.len() ==> types[first_type(types, i)] != Json::Text("null"@),
        forall|j: int|
            i <= j < first_type(types, i) ==> #[trigger] types[j] == Json::Text("null"@),
    decreases types.len() - i,
{
    if i < types.len() && types[i] == Json::Text("null"@) {
        lemma_first_type(types, i + 1);
    }
}

proof fn lemma_supported_keys()
    ensures
        !unsupported("nullable"@),
        !unsupported("type"@),
{
    reveal_strlit("type");
    assert("type"@.len() == 4);
    reveal_strlit("nullable");
    reveal_strlit("additionalProperties");
    reveal_strlit("unevaluatedProperties");
    reveal_strlit("patternProperties");
    reveal_strlit("additionalItems");
    reveal_strlit("unevaluatedItems");
    reveal_strlit("$schema");
    reveal_strlit("$id");
    reveal_strlit("$defs");
    reveal_strlit("definitions");
    reveal_strlit("examples");
    assert("nullable"@.len() == 8);
    assert("examples"@.len() == 8 && "examples"@[0] == 'e' && "nullable"@[0] == 'n');
    assert("additionalProperties"@.len() == 20);
    assert("unevaluatedProperties"@.len() == 21);
    assert("patternProperties"@.len() == 17);
    assert("additionalItems"@.len() == 15);
    assert("unevaluatedItems"@.len() == 16);
    assert("$schema"@.len() == 7);
    assert("$id"@.len() == 3);
    assert("$defs"@.len() == 5);
    assert("definitions"@.len() == 11);
}

/// A list of types with null in it, in a schema with a first type that is not null, becomes that
/// type and `nullable`.
pub proof fn sanitizing_folds_optional_types(m: Map<Seq<char>, Json>)
    requires
        turns_nullable(m),
        folds_type(m),
    ensures
        ({
            let types = m["type"@]->Array_0;
            let out = sanitized(Json::Object(m))->Object_0;
            &&& out.contains_key("nullable"@) && out["nullable"@] == Json::Bool(true)
            &&& out.contains_key("type"@) && out["type"@] == sanitized(
                types[first_type(types, 0)],
            )
        }),
{
    reveal_strlit("nullable");
    reveal_strlit("type");
    assert("nullable"@.len() == 8 && "type"@.len() == 4);
    lemma_supported_keys();
    lemma_first_type(m["type"@]->Array_0, 0);
}

/// Augmenting an object schema keeps every field that it does not itself set, always gives a
/// type, and never drops a property or a required field of the caller.
pub proof fn augmenting_keeps_caller_fields(m: Map<Seq<char>, Json>)
    ensures
        ({
            let out = with_amd_field(Json::Object(m))->Object_0;
            &&& out.contains_key("type"@)
            &&& m.contains_key("type"@) ==> out["type"@] == m["type"@]
            &&& forall|k: Seq<char>| #[trigger]
                m.contains_key(k) && k != "properties"@ && k != "required"@ ==> out.contains_key(k)
                    && out[k] == m[k]
            &&& m.contains_key("properties"@) && m["properties"@] is Object ==> {
                let p = m["properties"@]->Object_0;
                let q = out["properties"@]->Object_0;
                &&& out["properties"@] is Object
                &&& q.contains_key("amd"@) && q["amd"@] == amd_property()
                &&& forall|k: Seq<char>| #[trigger]
                    p.contains_key(k) && k != "amd"@ ==> q.contains_key(k) && q[k] == p[k]
            }
            &&& m.contains_key("required"@) && m["required"@] is Array ==> {
                let a = m["required"@]->Array_0;
                let b = out["required"@]->Array_0;
                &&& out["required"@] is Array
                &&& b.contains(Json::Text("amd"@))
                &&& a.len() <= b.len() && b.subrange(0, a.len() as int) == a
            }
            &&& !m.contains_key("required"@) ==> out["required"@] == Json::Array(
                seq![Json::Text("amd"@)],
            )
        }),
{
    reveal_strlit("type");
    reveal_strlit("properties");
    reveal_strlit("required");
    assert("type"@.len() == 4 && "properties"@.len() == 10 && "required"@.len() == 8);
    let out = with_amd_field(Json::Object(m))->Object_0;
    if m.contains_key("required"@) && m["required"@] is Array {
        let a = m["required"@]->Array_0;
        let b = out["required"@]->Array_0;
        if exists|i: int| 0 <= i < a.len() && a[i] == Json::Text("amd"@) {
            let i = choose|i: int| 0 <= i < a.len() && a[i] == Json::Text("amd"@);
            assert(b[i] == Json::Text("amd"@));
        } else {
            assert(b[a.len() as int] == Json::Text("amd"@));
        }
        assert(b.subrange(0, a.len() as int) =~= a);
    }
    if !m.contains_key("required"@) {
        assert(out["required"@]->Array_0 =~= seq![Json::Text("amd"@)]);
    }
}

/// Augmenting what has been augmented changes nothing.
pub proof fn augmenting_twice_is_augmenting_once(m: Map<Seq<char>, Json>)
    ensures
        with_amd_field(with_amd_field(Json::Object(m))) == with_amd_field(Json::Object(m)),
{
    reveal_strlit("type");
    reveal_strlit("properties");
    reveal_strlit("required");
    assert("type"@.len() == 4 && "properties"@.len() == 10 && "required"@.len() == 8);
    let once = with_amd_field(Json::Object(m))->Object_0;
    let twice = with_amd_field(Json::Object(once))->Object_0;
    let p = once["properties"@];
    if p is Object {
        assert(p->Object_0.insert("amd"@, amd_property()) =~= p->Object_0);
    }
    let q = once["required"@];
    if q is Array {
        let a = member_or(m, "required"@, Json::Array(Seq::empty()))->Array_0;
        let b = q->Array_0;
        if exists|i: int| 0 <= i < a.len() && a[i] == Json::Text("amd"@) {
            let i = choose|i: int| 0 <= i < a.len() && a[i] == Json::Text("amd"@);
            assert(b[i] == Json::Text("amd"@));
        } else {
            assert(b[a.len() as int] == Json::Text("amd"@));
        }
    }
    assert(twice =~= once);
}

/// What is no object, and no text of one, is returned unchanged.
pub proof fn augmenting_leaves_other_values(j: Json)
    requires
        !(unwrapped(j) is Object),
    ensures
        with_amd_field(unwrapped(j)) == j,
{
}

/// The type that a list of types folds to is the first that is not null, and a list that names null
/// alone folds to none.
pub proof fn folded_type_is_the_first(types: Seq<Json>)
    ensures
        ({
            let i = first_type(types, 0);
            &&& 0 <= i <= types.len()
            &&& i < types.len() ==> types[i] != Json::Text("null"@)
            &&& forall|j: int| 0 <= j < i ==> #[trigger] types[j] == Json::Text("null"@)
        }),
{
    lemma_first_type(types, 0);
}

/// Sanitizing keeps what the model knows: a list stays as long as it was, what is neither a list nor
/// an object stays as it is, and every other member of an object stays under its name, sanitized.
/// Only `nullable` may be new.
pub proof fn sanitizing_keeps_the_rest(j: Json, k: Seq<char>, i: int)
    ensures
        !(j is Array) && !(j is Object) ==> sanitized(j) == j,
        j is Array ==> sanitized(j) is Array && sanitized(j)->Array_0.len() == j->Array_0.len(),
        j is Array && 0 <= i < j->Array_0.len() ==> sanitized(j)->Array_0[i] == sanitized(
            j->Array_0[i],
        ),
        j is Object ==> sanitized(j) is Object,
        j is Object && j->Object_0.contains_key(k) && !unsupported(k) ==> sanitized(
            j,
        )->Object_0.contains_key(k),
        j is Object && j->Object_0.contains_key(k) && !unsupported(k) && k != "type"@ && k
            != "nullable"@ ==> sanitized(j)->Object_0[k] == sanitized(j->Object_0[k]),
        j is Object && sanitized(j)->Object_0.contains_key(k) && k != "nullable"@
            ==> j->Object_0.contains_key(k) && !unsupported(k),
        j is Object && j->Object_0.contains_key("type"@) && !(j->Object_0["type"@] is Array)
            ==> sanitized(j)->Object_0.contains_key("type"@) && sanitized(j)->Object_0["type"@]
            == sanitized(j->Object_0["type"@]),
{
    lemma_supported_keys();
    reveal_strlit("nullable");
    reveal_strlit("type");
    assert("nullable"@.len() == 8 && "type"@.len() == 4);
}

/// What a call's goal asks of the far end: one of five words, of which `live` is a person.
pub proof fn amd_is_one_of_five()
    ensures
        amd_kinds().len() == 5,
        amd_kinds().contains(Json::Text("live"@)),
        amd_kinds().contains(Json::Text("voicemail"@)),
        amd_kinds().contains(Json::Text("announcement"@)),
        amd_kinds().contains(Json::Text("ivr"@)),
        amd_kinds().contains(Json::Text("hold"@)),
        amd_property()->Object_0.contains_pair("type"@, Json::Text("string"@)),
        amd_property()->Object_0.contains_pair("enum"@, Json::Array(amd_kinds())),
{
    let a = amd_kinds();
    assert(a[0] == Json::Text("live"@));
    assert(a[1] == Json::Text("voicemail"@));
    assert(a[2] == Json::Text("announcement"@));
    assert(a[3] == Json::Text("ivr"@));
    assert(a[4] == Json::Text("hold"@));
    reveal_strlit("type");
    reveal_strlit("enum");
    reveal_strlit("description");
    assert("type"@.len() == 4 && "enum"@.len() == 4 && "description"@.len() == 11);
    assert("type"@[0] != "enum"@[0]);
}

/// A schema with a list of types becomes nullable exactly when null stands among them, wherever in
/// the list; one with a single type keeps what it says of that.
pub proof fn null_anywhere_makes_nullable(m: Map<Seq<char>, Json>, types: Seq<Json>, i: int)
    requires
        m.contains_key("type"@),
        m["type"@] == Json::Array(types),
    ensures
        0 <= i < types.len() && types[i] == Json::Text("null"@) ==> sanitized(
            Json::Object(m),
        )->Object_0.contains_pair("nullable"@, Json::Bool(true)),
        (forall|j: int| 0 <= j < types.len() ==> types[j] != Json::Text("null"@)) && !m.contains_key(
            "nullable"@,
        ) ==> !sanitized(Json::Object(m))->Object_0.contains_key("nullable"@),
{
    lemma_supported_keys();
    reveal_strlit("nullable");
    reveal_strlit("type");
    assert("nullable"@.len() == 8 && "type"@.len() == 4);
}

} // verus!
