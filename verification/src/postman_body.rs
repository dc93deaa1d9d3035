//! JSON Schemas inferred from the request bodies of a Postman collection.
//!
//! Raw bodies are JSON text. Their parsed values come from a table of parse
//! outcomes, text by text, that the caller fills in (see
//! [`crate::postman_collection::postman_body_texts`]): the first entry for a
//! text gives its outcome, and a text with no entry does not parse.
use vstd::prelude::*;

use crate::json::{entries_view, obj_get, obj_insert, obj_lookup, obj_set, values_view, Json, JsonV};
use crate::postman_text::{
    nullify_template_vars, replace_postman_template_vars_with_null_outside_strings,
};
use crate::text::{chars_of, str_eq, string_of, trim_ws, trim_ws_exec};

verus! {

/// The model of a table of parse outcomes.
pub open spec fn parsed_view(p: Seq<(String, Option<Json>)>) -> Seq<(Seq<char>, Option<JsonV>)> {
    Seq::new(
        p.len(),
        |i: int|
            (
                p[i].0@,
                match p[i].1 {
                    Some(j) => Some(j@),
                    None => None,
                },
            ),
    )
}

/// The parse outcome recorded for `t`: the first entry for it, else none.
pub open spec fn parse_lookup(p: Seq<(Seq<char>, Option<JsonV>)>, t: Seq<char>) -> Option<JsonV>
    decreases p.len(),
{
    if p.len() == 0 {
        None
    } else if p[0].0 == t {
        p[0].1
    } else {
        parse_lookup(p.drop_first(), t)
    }
}

/// The value of a raw body: the text itself parsed, else the text with its
/// template variables outside strings replaced by `null`; with the texts
/// whose outcome was consulted, in order.
pub open spec fn parse_raw(p: Seq<(Seq<char>, Option<JsonV>)>, raw: Seq<char>) -> (
    Option<JsonV>,
    Seq<Seq<char>>,
) {
    match parse_lookup(p, raw) {
        Some(v) => (Some(v), seq![raw]),
        None => {
            let sanitized = nullify_template_vars(raw, false, false);
            (parse_lookup(p, sanitized), seq![raw, sanitized])
        },
    }
}

/// The recorded outcome of parsing `text`.
pub fn lookup_parsed(parsed: &Vec<(String, Option<Json>)>, text: &str) -> (r: Option<Json>)
    ensures
        match parse_lookup(parsed_view(parsed@), text@) {
            Some(v) => r matches Some(j) && j@ == v,
            None => r is None,
        },
{
    let ghost pv = parsed_view(parsed@);
    let mut i: usize = 0;
    assert(pv.skip(0) =~= pv);
    while i < parsed.len()
        invariant
            i <= parsed.len(),
            pv == parsed_view(parsed@),
            parse_lookup(pv, text@) == parse_lookup(pv.skip(i as int), text@),
        decreases parsed.len() - i,
    {
        assert(pv.skip(i as int).drop_first() =~= pv.skip(i + 1));
        if str_eq(parsed[i].0.as_str(), text) {
            return match &parsed[i].1 {
                Some(j) => Some(j.deep_clone()),
                None => None,
            };
        }
        i = i + 1;
    }
    None
}

/// Parse a raw body: the text itself, else the text with template variables
/// outside strings replaced by `null`. Records in `consulted` the texts whose
/// outcome was read.
pub fn parse_postman_raw_as_json(
    raw: &str,
    parsed: &Vec<(String, Option<Json>)>,
    consulted: &mut Vec<String>,
) -> (r: Option<Json>)
    ensures
        match parse_raw(parsed_view(parsed@), raw@).0 {
            Some(v) => r matches Some(j) && j@ == v,
            None => r is None,
        },
        crate::openapi::strings_view(final(consulted)@) == crate::openapi::strings_view(
            old(consulted)@,
        ) + parse_raw(parsed_view(parsed@), raw@).1,
{
    let ghost c0 = crate::openapi::strings_view(consulted@);
    consulted.push(raw.to_owned());
    match lookup_parsed(parsed, raw) {
        Some(v) => {
            assert(crate::openapi::strings_view(consulted@) =~= c0 + seq![raw@]);
            Some(v)
        },
        None => {
            let sanitized = replace_postman_template_vars_with_null_outside_strings(raw);
            let r = lookup_parsed(parsed, sanitized.as_str());
            consulted.push(sanitized);
            assert(crate::openapi::strings_view(consulted@) =~= c0 + seq![
                raw@,
                nullify_template_vars(raw@, false, false),
            ]);
            r
        },
    }
}

// ---------------------------------------------------------------------------
// Inferred schemas
// ---------------------------------------------------------------------------

pub open spec fn empty_obj() -> JsonV {
    JsonV::Object(Seq::empty())
}

/// `{"type": t}`.
pub open spec fn type_schema(t: Seq<char>) -> JsonV {
    JsonV::Object(obj_insert(Seq::empty(), "type"@, JsonV::Str(t)))
}

/// `{"type": "object", "additionalProperties": true}`.
pub open spec fn any_object_schema() -> JsonV {
    JsonV::Object(
        obj_insert(
            obj_insert(Seq::empty(), "type"@, JsonV::Str("object"@)),
            "additionalProperties"@,
            JsonV::Bool(true),
        ),
    )
}

/// The JSON Schema describing the shape of a sample value: its type, the
/// schema of the first element of an array, and the schemas of the members
/// of an object (none of them required).
pub open spec fn infer_schema(v: JsonV) -> JsonV
    decreases v,
{
    match v {
        JsonV::Null => type_schema("null"@),
        JsonV::Bool(_) => type_schema("boolean"@),
        JsonV::Number(_, is_i64) => if is_i64 {
            type_schema("integer"@)
        } else {
            type_schema("number"@)
        },
        JsonV::Str(_) => type_schema("string"@),
        JsonV::Array(s) => JsonV::Object(
            obj_insert(
                obj_insert(Seq::empty(), "type"@, JsonV::Str("array"@)),
                "items"@,
                if s.len() > 0 {
                    infer_schema(s[0])
                } else {
                    any_object_schema()
                },
            ),
        ),
        JsonV::Object(e) => JsonV::Object(
            obj_insert(
                obj_insert(
                    obj_insert(Seq::empty(), "type"@, JsonV::Str("object"@)),
                    "properties"@,
                    JsonV::Object(infer_props(e)),
                ),
                "required"@,
                JsonV::Array(Seq::empty()),
            ),
        ),
    }
}

/// The inferred schema of each member, stored under its key.
pub open spec fn infer_props(e: Seq<(Seq<char>, JsonV)>) -> Seq<(Seq<char>, JsonV)>
    decreases e,
{
    if e.len() == 0 {
        Seq::empty()
    } else {
        obj_insert(infer_props(e.drop_last()), e.last().0, infer_schema(e.last().1))
    }
}

fn type_schema_exec(t: &str) -> (r: Json)
    ensures
        r@ == type_schema(t@),
{
    let mut e: Vec<(String, Json)> = Vec::new();
    assert(entries_view(e@) =~= Seq::empty());
    obj_set(&mut e, "type", Json::from_str(t));
    Json::object(e)
}

fn any_object_schema_exec() -> (r: Json)
    ensures
        r@ == any_object_schema(),
{
    let mut e: Vec<(String, Json)> = Vec::new();
    assert(entries_view(e@) =~= Seq::empty());
    obj_set(&mut e, "type", Json::from_str("object"));
    obj_set(&mut e, "additionalProperties", Json::Bool(true));
    Json::object(e)
}

/// Infer a JSON Schema from a sample value.
pub fn infer_json_schema(v: &Json) -> (r: Json)
    ensures
        r@ == infer_schema(v@),
    decreases v,
{
    match v {
        Json::Null => type_schema_exec("null"),
        Json::Bool(_) => type_schema_exec("boolean"),
        Json::Number(n) => if n.is_i64 {
            type_schema_exec("integer")
        } else {
            type_schema_exec("number")
        },
        Json::String(_) => type_schema_exec("string"),
        Json::Array(arr) => {
            proof {
                crate::json::lemma_array_view(*arr);
            }
            let items = if arr.len() > 0 {
                assert(decreases_to!(*v => *arr));
                assert(decreases_to!(*arr => arr[0]));
                infer_json_schema(&arr[0])
            } else {
                any_object_schema_exec()
            };
            let mut e: Vec<(String, Json)> = Vec::new();
            assert(entries_view(e@) =~= Seq::empty());
            obj_set(&mut e, "type", Json::from_str("array"));
            obj_set(&mut e, "items", items);
            Json::object(e)
        },
        Json::Object(map) => {
            proof {
                crate::json::lemma_object_view(*map);
            }
            assert(decreases_to!(*v => *map));
            let props = infer_props_exec(map);
            let mut e: Vec<(String, Json)> = Vec::new();
            assert(entries_view(e@) =~= Seq::empty());
            obj_set(&mut e, "type", Json::from_str("object"));
            obj_set(&mut e, "properties", Json::object(props));
            let empty: Vec<Json> = Vec::new();
            assert(values_view(empty@) =~= Seq::empty());
            obj_set(&mut e, "required", Json::array(empty));
            Json::object(e)
        },
    }
}

fn infer_props_exec(map: &Vec<(String, Json)>) -> (r: Vec<(String, Json)>)
    ensures
        entries_view(r@) == infer_props(entries_view(map@)),
    decreases map,
{
    let ghost m = entries_view(map@);
    let mut props: Vec<(String, Json)> = Vec::new();
    let mut i: usize = 0;
    assert(m.take(0) =~= Seq::<(Seq<char>, JsonV)>::empty());
    assert(entries_view(props@) =~= Seq::empty());
    while i < map.len()
        invariant
            i <= map.len(),
            m == entries_view(map@),
            entries_view(props@) == infer_props(m.take(i as int)),
        decreases map.len() - i,
    {
        assert(m.take(i + 1).drop_last() =~= m.take(i as int));
        assert(m.take(i + 1).last() == m[i as int]);
        assert(decreases_to!(*map => map[i as int]));
        assert(decreases_to!(map[i as int] => map[i as int].1));
        let s = infer_json_schema(&map[i].1);
        crate::json::obj_insert_exec(&mut props, map[i].0.clone(), s);
        i = i + 1;
    }
    assert(m.take(map.len() as int) =~= m);
    props
}

/// The request-body schema of a parsed raw body: `{}` for an empty object,
/// the inferred schema for another object, and for any other value the
/// inferred schema marked as the whole body.
pub open spec fn inferred_body_schema(v: JsonV) -> JsonV {
    match v {
        JsonV::Object(e) => if e.len() == 0 {
            empty_obj()
        } else {
            infer_schema(v)
        },
        _ => match infer_schema(v) {
            JsonV::Object(sch) => JsonV::Object(
                obj_insert(sch, "x-connector-body-field-name"@, JsonV::Str("body"@)),
            ),
            other => other,
        },
    }
}

/// Build the `requestBody` schema from a parsed Postman raw JSON value.
pub fn schema_for_inferred_body_value(v: &Json) -> (r: Json)
    ensures
        r@ == inferred_body_schema(v@),
{
    match v {
        Json::Object(map) => {
            proof {
                crate::json::lemma_object_view(*map);
            }
            if map.len() == 0 {
                Json::empty_object()
            } else {
                infer_json_schema(v)
            }
        },
        _ => {
            let sch = infer_json_schema(v);
            match sch {
                Json::Object(mut e) => {
                    proof {
                        crate::json::lemma_object_view(e);
                    }
                    obj_set(&mut e, "x-connector-body-field-name", Json::from_str("body"));
                    Json::object(e)
                },
                other => other,
            }
        },
    }
}

/// The raw body text: `body.raw` as a string, or the `value` of a `raw` object.
pub open spec fn raw_body_text(body: Seq<(Seq<char>, JsonV)>) -> Option<Seq<char>> {
    match obj_get(body, "raw"@) {
        Some(JsonV::Str(s)) => Some(s),
        Some(JsonV::Object(o)) => match obj_get(o, "value"@) {
            Some(JsonV::Str(s)) => Some(s),
            _ => None,
        },
        _ => None,
    }
}

/// Postman stores `body.raw` as a string or as `{ "language": "json", "value": "..." }`.
pub fn postman_raw_body_text(body: &Vec<(String, Json)>) -> (r: Option<String>)
    ensures
        match raw_body_text(entries_view(body@)) {
            Some(t) => r matches Some(s) && s@ == t,
            None => r is None,
        },
{
    match obj_lookup(body, "raw") {
        Some(Json::String(s)) => Some(s.clone()),
        Some(Json::Object(o)) => {
            proof {
                crate::json::lemma_object_view(*o);
            }
            match obj_lookup(o, "value") {
                Some(Json::String(s)) => Some(s.clone()),
                _ => None,
            }
        },
        _ => None,
    }
}

/// `{"type": "string", "description": ..., "x-connector-body-field-name": "body"}`
/// for a raw body that is not JSON.
pub open spec fn raw_string_body_schema() -> JsonV {
    JsonV::Object(
        obj_insert(
            obj_insert(
                obj_insert(Seq::empty(), "type"@, JsonV::Str("string"@)),
                "description"@,
                JsonV::Str("Raw request body (not valid JSON in collection)"@),
            ),
            "x-connector-body-field-name"@,
            JsonV::Str("body"@),
        ),
    )
}

/// The schema of a multipart form body.
pub open spec fn formdata_body_schema() -> JsonV {
    JsonV::Object(
        obj_insert(
            obj_insert(
                obj_insert(Seq::empty(), "type"@, JsonV::Str("object"@)),
                "additionalProperties"@,
                JsonV::Bool(true),
            ),
            "description"@,
            JsonV::Str("multipart/form-data body (inspect collection for fields)"@),
        ),
    )
}

/// The form fields of a URL-encoded body that are enabled and named: each is a
/// string property, and those with a non-empty sample value are required.
pub open spec fn urlencoded_fields(params: Seq<JsonV>) -> (Seq<(Seq<char>, JsonV)>, Seq<JsonV>)
    decreases params.len(),
{
    if params.len() == 0 {
        (Seq::empty(), Seq::empty())
    } else {
        let (props, required) = urlencoded_fields(params.drop_last());
        match params.last() {
            JsonV::Object(po) => {
                let disabled = match obj_get(po, "disabled"@) {
                    Some(JsonV::Bool(b)) => b,
                    _ => false,
                };
                let key = match obj_get(po, "key"@) {
                    Some(JsonV::Str(k)) => k,
                    _ => Seq::empty(),
                };
                if disabled || key.len() == 0 {
                    (props, required)
                } else {
                    let props2 = obj_insert(props, key, type_schema("string"@));
                    let nonempty_value = match obj_get(po, "value"@) {
                        Some(JsonV::Str(v)) => v.len() > 0,
                        _ => false,
                    };
                    if nonempty_value {
                        (props2, required.push(JsonV::Str(key)))
                    } else {
                        (props2, required)
                    }
                }
            },
            _ => (props, required),
        }
    }
}

/// The request-body schema of a request, with the texts whose parse outcome
/// was consulted.
pub open spec fn body_schema(req: Seq<(Seq<char>, JsonV)>, p: Seq<(Seq<char>, Option<JsonV>)>) -> (
    JsonV,
    Seq<Seq<char>>,
) {
    match obj_get(req, "body"@) {
        Some(JsonV::Object(body)) => {
            let mode = match obj_get(body, "mode"@) {
                Some(JsonV::Str(m)) => m,
                _ => "raw"@,
            };
            if mode == "raw"@ {
                match raw_body_text(body) {
                    None => (empty_obj(), Seq::empty()),
                    Some(text) => {
                        let raw = trim_ws(text);
                        if raw.len() == 0 {
                            (empty_obj(), Seq::empty())
                        } else {
                            let (pv, cons) = parse_raw(p, raw);
                            match pv {
                                Some(v) => (inferred_body_schema(v), cons),
                                None => (raw_string_body_schema(), cons),
                            }
                        }
                    },
                }
            } else if mode == "urlencoded"@ {
                match obj_get(body, "urlencoded"@) {
                    Some(JsonV::Array(params)) => {
                        let (props, required) = urlencoded_fields(params);
                        (
                            JsonV::Object(
                                obj_insert(
                                    obj_insert(
                                        obj_insert(Seq::empty(), "type"@, JsonV::Str("object"@)),
                                        "properties"@,
                                        JsonV::Object(props),
                                    ),
                                    "required"@,
                                    JsonV::Array(required),
                                ),
                            ),
                            Seq::empty(),
                        )
                    },
                    _ => (empty_obj(), Seq::empty()),
                }
            } else if mode == "formdata"@ {
                (formdata_body_schema(), Seq::empty())
            } else {
                (empty_obj(), Seq::empty())
            }
        },
        _ => (empty_obj(), Seq::empty()),
    }
}

fn urlencoded_schema_exec(params: &Vec<Json>) -> (r: Json)
    ensures
        r@ == ({
            let (props, required) = urlencoded_fields(values_view(params@));
            JsonV::Object(
                obj_insert(
                    obj_insert(
                        obj_insert(Seq::empty(), "type"@, JsonV::Str("object"@)),
                        "properties"@,
                        JsonV::Object(props),
                    ),
                    "required"@,
                    JsonV::Array(required),
                ),
            )
        }),
{
    let ghost ps = values_view(params@);
    let mut props: Vec<(String, Json)> = Vec::new();
    let mut required: Vec<Json> = Vec::new();
    let mut i: usize = 0;
    assert(ps.take(0) =~= Seq::<JsonV>::empty());
    assert(entries_view(props@) =~= Seq::empty());
    assert(values_view(required@) =~= Seq::empty());
    while i < params.len()
        invariant
            i <= params.len(),
            ps == values_view(params@),
            (entries_view(props@), values_view(required@)) == urlencoded_fields(
                ps.take(i as int),
            ),
        decreases params.len() - i,
    {
        assert(ps.take(i + 1).drop_last() =~= ps.take(i as int));
        assert(ps.take(i + 1).last() == ps[i as int]);
        match &params[i] {
            Json::Object(po) => {
                proof {
                    crate::json::lemma_object_view(*po);
                }
                let disabled = match obj_lookup(po, "disabled") {
                    Some(d) => match d.as_bool() {
                        Some(b) => b,
                        None => false,
                    },
                    None => false,
                };
                let key: String = match obj_lookup(po, "key") {
                    Some(Json::String(k)) => k.clone(),
                    _ => String::new(),
                };
                if !disabled && !key.as_str().is_empty() {
                    let nonempty_value = match obj_lookup(po, "value") {
                        Some(Json::String(v)) => !v.as_str().is_empty(),
                        _ => false,
                    };
                    let key2 = key.clone();
                    crate::json::obj_insert_exec(&mut props, key, type_schema_exec("string"));
                    if nonempty_value {
                        let ghost r0 = values_view(required@);
                        required.push(Json::String(key2));
                        assert(values_view(required@) =~= r0.push(JsonV::Str(key2@)));
                    }
                }
            },
            _ => {},
        }
        i = i + 1;
    }
    assert(ps.take(params.len() as int) =~= ps);
    let mut e: Vec<(String, Json)> = Vec::new();
    assert(entries_view(e@) =~= Seq::empty());
    obj_set(&mut e, "type", Json::from_str("object"));
    obj_set(&mut e, "properties", Json::object(props));
    obj_set(&mut e, "required", Json::array(required));
    Json::object(e)
}

/// The JSON Schema of a request's body. Records in `consulted` the texts
/// whose parse outcome was read.
pub fn extract_body_schema(
    request: &Vec<(String, Json)>,
    parsed: &Vec<(String, Option<Json>)>,
    consulted: &mut Vec<String>,
) -> (r: Json)
    ensures
        r@ == body_schema(entries_view(request@), parsed_view(parsed@)).0,
        crate::openapi::strings_view(final(consulted)@) == crate::openapi::strings_view(
            old(consulted)@,
        ) + body_schema(entries_view(request@), parsed_view(parsed@)).1,
{
    let ghost c0 = crate::openapi::strings_view(consulted@);
    assert(c0 + Seq::<Seq<char>>::empty() =~= c0);
    let body = match obj_lookup(request, "body") {
        Some(Json::Object(b)) => b,
        _ => {
            return Json::empty_object();
        },
    };
    proof {
        crate::json::lemma_object_view(*body);
    }
    let mode: String = match obj_lookup(body, "mode") {
        Some(Json::String(m)) => m.clone(),
        _ => "raw".to_owned(),
    };
    if str_eq(mode.as_str(), "raw") {
        let text = match postman_raw_body_text(body) {
            Some(t) => t,
            None => {
                return Json::empty_object();
            },
        };
        let tc = chars_of(text.as_str());
        let trimmed = trim_ws_exec(&tc);
        if trimmed.len() == 0 {
            return Json::empty_object();
        }
        let raw = string_of(&trimmed);
        match parse_postman_raw_as_json(raw.as_str(), parsed, consulted) {
            Some(v) => schema_for_inferred_body_value(&v),
            None => {
                let mut e: Vec<(String, Json)> = Vec::new();
                assert(entries_view(e@) =~= Seq::empty());
                obj_set(&mut e, "type", Json::from_str("string"));
                obj_set(
                    &mut e,
                    "description",
                    Json::from_str("Raw request body (not valid JSON in collection)"),
                );
                obj_set(&mut e, "x-connector-body-field-name", Json::from_str("body"));
                Json::object(e)
            },
        }
    } else if str_eq(mode.as_str(), "urlencoded") {
        match obj_lookup(body, "urlencoded") {
            Some(Json::Array(params)) => {
                proof {
                    crate::json::lemma_array_view(*params);
                }
                urlencoded_schema_exec(params)
            },
            _ => Json::empty_object(),
        }
    } else if str_eq(mode.as_str(), "formdata") {
        let mut e: Vec<(String, Json)> = Vec::new();
        assert(entries_view(e@) =~= Seq::empty());
        obj_set(&mut e, "type", Json::from_str("object"));
        obj_set(&mut e, "additionalProperties", Json::Bool(true));
        obj_set(
            &mut e,
            "description",
            Json::from_str("multipart/form-data body (inspect collection for fields)"),
        );
        Json::object(e)
    } else {
        Json::empty_object()
    }
}

} // verus!
