//! Postman Collection v2.1 → synthetic OpenAPI 3.0 for shared tooling.
//!
//! Each request becomes a unique internal path `/_postman/{operation_id}` so
//! duplicate URL + method pairs (common in RPC-style APIs) stay addressable.
//! The real path is stored on the operation as extension field
//! `x-connector-api-path`.
use vstd::prelude::*;

use crate::json::{
    entries_view, get_arr, get_str, jget, lemma_jget_smaller, lemma_seq_size_elem,
    obj_contains_key, obj_get, obj_insert, obj_lookup, obj_set, seq_size, values_view, Json, JsonV,
};
use crate::documents::{
    json_text_error, json_text_value, parse_json_text, parse_table, parse_texts, parse_yaml_text,
    yaml_text_error, yaml_text_value,
};
use crate::openapi::strings_view;
use crate::postman_body::{body_schema, extract_body_schema, parsed_view};
use crate::postman_text::{
    before_first, display_sep, id_base, join_display_path, join_with, lemma_find_bounds,
    normalize_braces, normalize_postman_braces_chars, path_from_raw_url, raw_url_path, unique_id,
    unique_snake_id,
};
use crate::text::{
    append_chars, append_str, chars_of, contains_exec, ends_with, find, find_exec, lowercase_str,
    split_char, split_char_exec, starts_with, str_to_lowercase, string_of, subvec, trim_ws,
    trim_ws_exec, views, has_text,
};

verus! {

/// Why a Postman collection could not be converted.
#[derive(Debug)]
pub enum PostmanConversionError {
    MissingItemArray,
    NoRequests,
    MissingUrl,
    InvalidUrl,
    InvalidRequest(String),
    EmptyRequestArray,
    InvalidStructure(String),
}

/// The model of a [`PostmanConversionError`].
pub enum PostmanErrV {
    MissingItemArray,
    NoRequests,
    MissingUrl,
    InvalidUrl,
    InvalidRequest(Seq<char>),
    EmptyRequestArray,
    InvalidStructure(Seq<char>),
}

impl View for PostmanConversionError {
    type V = PostmanErrV;

    open spec fn view(&self) -> PostmanErrV {
        match self {
            PostmanConversionError::MissingItemArray => PostmanErrV::MissingItemArray,
            PostmanConversionError::NoRequests => PostmanErrV::NoRequests,
            PostmanConversionError::MissingUrl => PostmanErrV::MissingUrl,
            PostmanConversionError::InvalidUrl => PostmanErrV::InvalidUrl,
            PostmanConversionError::InvalidRequest(s) => PostmanErrV::InvalidRequest(s@),
            PostmanConversionError::EmptyRequestArray => PostmanErrV::EmptyRequestArray,
            PostmanConversionError::InvalidStructure(s) => PostmanErrV::InvalidStructure(s@),
        }
    }
}

// ---------------------------------------------------------------------------
// Detecting a collection
// ---------------------------------------------------------------------------

/// A Postman collection (v2.0+): not an OpenAPI or Swagger document, with an
/// `info` object and a non-empty `item` array, and either a schema URL that
/// names Postman or a `_postman_id` in `info`.
pub open spec fn is_collection(v: JsonV) -> bool {
    if jget(v, "openapi"@) is Some || jget(v, "swagger"@) is Some {
        false
    } else {
        match (jget(v, "info"@), get_arr(v, "item"@)) {
            (Some(JsonV::Object(info)), Some(items)) => {
                if items.len() == 0 {
                    false
                } else {
                    let schema_url = match obj_get(info, "schema"@) {
                        Some(JsonV::Str(s)) => s,
                        _ => Seq::empty(),
                    };
                    if find(schema_url, "postman.com"@) is Some || find(
                        schema_url,
                        "getpostman"@,
                    ) is Some {
                        true
                    } else {
                        obj_get(info, "_postman_id"@) is Some
                    }
                }
            },
            _ => false,
        }
    }
}

/// Detect Postman Collection JSON (v2.0+).
pub fn is_postman_collection(v: &Json) -> (r: bool)
    ensures
        r == is_collection(v@),
{
    if v.get("openapi").is_some() || v.get("swagger").is_some() {
        return false;
    }
    let info = match v.get("info") {
        Some(Json::Object(o)) => o,
        _ => {
            return false;
        },
    };
    proof {
        crate::json::lemma_object_view(*info);
    }
    let items = match v.get("item") {
        Some(Json::Array(a)) => a,
        _ => {
            return false;
        },
    };
    proof {
        crate::json::lemma_array_view(*items);
    }
    if items.len() == 0 {
        return false;
    }
    let schema_url: Vec<char> = match obj_lookup(info, "schema") {
        Some(Json::String(s)) => chars_of(s.as_str()),
        _ => Vec::new(),
    };
    let a = chars_of("postman.com");
    let b = chars_of("getpostman");
    if contains_exec(&schema_url, &a) || contains_exec(&schema_url, &b) {
        return true;
    }
    obj_contains_key(info, "_postman_id")
}

/// A JSON object that is neither an OpenAPI nor a Swagger document, whose
/// `info` object has a `schema` URL in which `getpostman` or `postman.com`
/// occurs, and whose `item` array is not empty, is a Postman collection,
/// with or without a `_postman_id`.
pub proof fn lemma_schema_url_marks_collection(
    v: JsonV,
    info: Seq<(Seq<char>, JsonV)>,
    items: Seq<JsonV>,
    url: Seq<char>,
)
    requires
        jget(v, "openapi"@) is None,
        jget(v, "swagger"@) is None,
        jget(v, "info"@) == Some(JsonV::Object(info)),
        jget(v, "item"@) == Some(JsonV::Array(items)),
        items.len() > 0,
        obj_get(info, "schema"@) == Some(JsonV::Str(url)),
        has_text(url, "getpostman"@) || has_text(url, "postman.com"@),
    ensures
        is_collection(v),
{
    crate::text::lemma_find_from(url, "getpostman"@, 0);
    crate::text::lemma_find_from(url, "postman.com"@, 0);
    if has_text(url, "getpostman"@) {
        let i = choose|i: int| #[trigger] crate::text::matches_at(url, "getpostman"@, i);
        assert(find(url, "getpostman"@) is Some);
    } else {
        let i = choose|i: int| #[trigger] crate::text::matches_at(url, "postman.com"@, i);
        assert(find(url, "postman.com"@) is Some);
    }
}

/// A JSON value is a Postman collection exactly when it is neither an
/// OpenAPI nor a Swagger document, has an `info` object and a non-empty
/// `item` array, and either `info.schema` is a URL in which `getpostman` or
/// `postman.com` occurs or `info` has a `_postman_id`.
pub proof fn lemma_collection_exactly(v: JsonV)
    ensures
        is_collection(v) == (jget(v, "openapi"@) is None && jget(v, "swagger"@) is None && (jget(
            v,
            "info"@,
        ) matches Some(JsonV::Object(info)) && (jget(v, "item"@) matches Some(JsonV::Array(items))
            && items.len() > 0 && ((obj_get(info, "schema"@) matches Some(JsonV::Str(url)) && (
        has_text(url, "getpostman"@) || has_text(url, "postman.com"@))) || obj_get(
            info,
            "_postman_id"@,
        ) is Some)))),
{
    reveal_strlit("getpostman");
    reveal_strlit("postman.com");
    if let Some(JsonV::Object(info)) = jget(v, "info"@) {
        let url = match obj_get(info, "schema"@) {
            Some(JsonV::Str(s)) => s,
            _ => Seq::empty(),
        };
        crate::text::lemma_find_from(url, "getpostman"@, 0);
        crate::text::lemma_find_from(url, "postman.com"@, 0);
        if find(url, "getpostman"@) is Some {
            let k = find(url, "getpostman"@)->Some_0;
            assert(crate::text::matches_at(url, "getpostman"@, k));
        }
        if find(url, "postman.com"@) is Some {
            let k = find(url, "postman.com"@)->Some_0;
            assert(crate::text::matches_at(url, "postman.com"@, k));
        }
        if has_text(url, "getpostman"@) {
            let i = choose|i: int| #[trigger] crate::text::matches_at(url, "getpostman"@, i);
        }
        if has_text(url, "postman.com"@) {
            let i = choose|i: int| #[trigger] crate::text::matches_at(url, "postman.com"@, i);
        }
    }
}

// ---------------------------------------------------------------------------
// Requests
// ---------------------------------------------------------------------------

/// The request object of a Postman item: an object, or the first element of
/// an array (followed down through nested arrays).
pub open spec fn resolve_request(r: JsonV) -> Result<Seq<(Seq<char>, JsonV)>, PostmanErrV>
    decreases r,
{
    match r {
        JsonV::Array(s) => if s.len() == 0 {
            Err(PostmanErrV::EmptyRequestArray)
        } else {
            resolve_request(s[0])
        },
        JsonV::Object(e) => Ok(e),
        _ => Err(PostmanErrV::InvalidRequest("request is not an object"@)),
    }
}

fn resolve_request_object(request: &Json) -> (r: Result<&Vec<(String, Json)>, PostmanConversionError>)
    ensures
        match resolve_request(request@) {
            Ok(e) => r matches Ok(o) && entries_view(o@) == e,
            Err(err) => r matches Err(e2) && e2@ == err,
        },
    decreases request,
{
    match request {
        Json::Array(arr) => {
            proof {
                crate::json::lemma_array_view(*arr);
            }
            if arr.len() == 0 {
                return Err(PostmanConversionError::EmptyRequestArray);
            }
            assert(decreases_to!(*request => *arr));
            assert(decreases_to!(*arr => arr[0]));
            resolve_request_object(&arr[0])
        },
        Json::Object(o) => {
            proof {
                crate::json::lemma_object_view(*o);
            }
            Ok(o)
        },
        _ => Err(PostmanConversionError::InvalidRequest("request is not an object".to_owned())),
    }
}

/// The path built from Postman's `url.path` segments: `:name` becomes
/// `{name}`, `{{name}}` becomes `{name}`, empty segments are skipped.
pub open spec fn segment_piece(s: JsonV) -> Seq<char> {
    match s {
        JsonV::Str(t) => t,
        JsonV::Object(o) => match obj_get(o, "value"@) {
            Some(v) => match v {
                JsonV::Str(t) => t,
                _ => Seq::empty(),
            },
            None => match obj_get(o, "key"@) {
                Some(JsonV::Str(t)) => t,
                _ => Seq::empty(),
            },
        },
        _ => Seq::empty(),
    }
}

pub open spec fn segment_parts(segs: Seq<JsonV>) -> Seq<Seq<char>>
    decreases segs.len(),
{
    if segs.len() == 0 {
        Seq::empty()
    } else {
        let prev = segment_parts(segs.drop_last());
        let piece = segment_piece(segs.last());
        if piece.len() == 0 {
            prev
        } else if piece[0] == ':' {
            prev.push(seq!['{'] + piece.drop_first() + seq!['}'])
        } else {
            prev.push(normalize_braces(piece))
        }
    }
}

pub open spec fn path_from_segments(segs: Seq<JsonV>) -> Seq<char> {
    let parts = segment_parts(segs);
    if parts.len() == 0 {
        seq!['/']
    } else {
        seq!['/'] + join_with(parts, seq!['/'])
    }
}

fn join_slash(parts: &Vec<Vec<char>>) -> (r: Vec<char>)
    ensures
        r@ == join_with(views(parts@), seq!['/']),
{
    let ghost ps = views(parts@);
    let mut out: Vec<char> = Vec::new();
    let mut sep: Vec<char> = Vec::new();
    sep.push('/');
    assert(sep@ =~= seq!['/']);
    let mut i: usize = 0;
    assert(ps.take(0) =~= Seq::<Seq<char>>::empty());
    while i < parts.len()
        invariant
            i <= parts.len(),
            ps == views(parts@),
            sep@ == seq!['/'],
            out@ == join_with(ps.take(i as int), seq!['/']),
        decreases parts.len() - i,
    {
        assert(ps.take(i + 1).drop_last() =~= ps.take(i as int));
        assert(ps[i as int] == parts@[i as int]@);
        if i > 0 {
            append_chars(&mut out, &sep);
        }
        append_chars(&mut out, &parts[i]);
        i = i + 1;
    }
    assert(ps.take(parts.len() as int) =~= ps);
    out
}

fn build_path_from_segments(segs: &Vec<Json>) -> (r: Result<String, PostmanConversionError>)
    ensures
        r matches Ok(s) && s@ == path_from_segments(values_view(segs@)),
{
    let ghost sv = values_view(segs@);
    let mut parts: Vec<Vec<char>> = Vec::new();
    let mut i: usize = 0;
    assert(sv.take(0) =~= Seq::<JsonV>::empty());
    assert(views(parts@) =~= Seq::<Seq<char>>::empty());
    while i < segs.len()
        invariant
            i <= segs.len(),
            sv == values_view(segs@),
            views(parts@) == segment_parts(sv.take(i as int)),
        decreases segs.len() - i,
    {
        assert(sv.take(i + 1).drop_last() =~= sv.take(i as int));
        assert(sv.take(i + 1).last() == sv[i as int]);
        let piece: Vec<char> = match &segs[i] {
            Json::String(t) => chars_of(t.as_str()),
            Json::Object(o) => {
                proof {
                    crate::json::lemma_object_view(*o);
                }
                match obj_lookup(o, "value") {
                    Some(v) => match v {
                        Json::String(t) => chars_of(t.as_str()),
                        _ => Vec::new(),
                    },
                    None => match obj_lookup(o, "key") {
                        Some(Json::String(t)) => chars_of(t.as_str()),
                        _ => Vec::new(),
                    },
                }
            },
            _ => Vec::new(),
        };
        assert(piece@ == segment_piece(sv[i as int]));
        if piece.len() > 0 {
            let ghost p0 = views(parts@);
            if piece[0] == ':' {
                let mut seg: Vec<char> = Vec::new();
                seg.push('{');
                let tail = subvec(&piece, 1, piece.len());
                assert(tail@ =~= piece@.drop_first());
                append_chars(&mut seg, &tail);
                seg.push('}');
                assert(seg@ =~= seq!['{'] + piece@.drop_first() + seq!['}']);
                parts.push(seg);
            } else {
                parts.push(normalize_postman_braces_chars(&piece));
            }
            assert(views(parts@) =~= p0.push(parts@.last()@));
        }
        i = i + 1;
    }
    assert(sv.take(segs.len() as int) =~= sv);
    let mut out: Vec<char> = Vec::new();
    out.push('/');
    if parts.len() > 0 {
        let joined = join_slash(&parts);
        append_chars(&mut out, &joined);
        assert(out@ =~= seq!['/'] + join_with(views(parts@), seq!['/']));
    } else {
        assert(out@ =~= seq!['/']);
    }
    Ok(string_of(&out))
}

/// The names of the `{name}` segments of a path, in order.
pub open spec fn path_param_names(segs: Seq<Seq<char>>) -> Seq<Seq<char>>
    decreases segs.len(),
{
    if segs.len() == 0 {
        Seq::empty()
    } else {
        let prev = path_param_names(segs.drop_last());
        let seg = trim_ws(segs.last());
        if starts_with(seg, seq!['{']) && ends_with(seg, seq!['}']) && seg.len() > 2 {
            prev.push(seg.subrange(1, seg.len() - 1))
        } else {
            prev
        }
    }
}

/// A query parameter: its key, its sample value, and whether it is disabled.
pub open spec fn query_view(q: Seq<(String, String, bool)>) -> Seq<(Seq<char>, Seq<char>, bool)> {
    Seq::new(q.len(), |i: int| (q[i].0@, q[i].1@, q[i].2))
}

/// The query parameters listed in `url.query`: those that are objects with a
/// non-empty key.
pub open spec fn listed_query(qarr: Seq<JsonV>) -> Seq<(Seq<char>, Seq<char>, bool)>
    decreases qarr.len(),
{
    if qarr.len() == 0 {
        Seq::empty()
    } else {
        let prev = listed_query(qarr.drop_last());
        match qarr.last() {
            JsonV::Object(qo) => {
                let disabled = match obj_get(qo, "disabled"@) {
                    Some(JsonV::Bool(b)) => b,
                    _ => false,
                };
                let key = match obj_get(qo, "key"@) {
                    Some(JsonV::Str(k)) => k,
                    _ => Seq::empty(),
                };
                let val = match obj_get(qo, "value"@) {
                    Some(JsonV::Str(v)) => v,
                    _ => Seq::empty(),
                };
                if key.len() == 0 {
                    prev
                } else {
                    prev.push((key, val, disabled))
                }
            },
            _ => prev,
        }
    }
}

pub open spec fn has_query_key(q: Seq<(Seq<char>, Seq<char>, bool)>, k: Seq<char>) -> bool {
    exists|i: int| 0 <= i < q.len() && (#[trigger] q[i]).0 == k
}

/// Adds the `key=value` pairs of a raw query string, skipping empty pairs,
/// empty keys and keys already present.
pub open spec fn raw_query(pairs: Seq<Seq<char>>, q: Seq<(Seq<char>, Seq<char>, bool)>) -> Seq<
    (Seq<char>, Seq<char>, bool),
>
    decreases pairs.len(),
{
    if pairs.len() == 0 {
        q
    } else {
        let prev = raw_query(pairs.drop_last(), q);
        let pair = before_first(pairs.last(), '#');
        if pair.len() == 0 {
            prev
        } else {
            let (k, v) = match find(pair, seq!['=']) {
                Some(j) => (pair.subrange(0, j), pair.subrange(j + 1, pair.len() as int)),
                None => (pair, Seq::empty()),
            };
            let k2 = trim_ws(k);
            if k2.len() == 0 || has_query_key(prev, k2) {
                prev
            } else {
                prev.push((k2, trim_ws(v), false))
            }
        }
    }
}

/// The URL of a request: its path (from `raw` when present, else from the
/// `path` segments, else `/`), the names of its path parameters, and its query
/// parameters (listed ones first, then those of the raw query string).
pub open spec fn url_parts(req: Seq<(Seq<char>, JsonV)>) -> Result<
    (Seq<char>, Seq<Seq<char>>, Seq<(Seq<char>, Seq<char>, bool)>),
    PostmanErrV,
> {
    match obj_get(req, "url"@) {
        None => Err(PostmanErrV::MissingUrl),
        Some(url) => {
            let parts: Option<(Option<Seq<char>>, Option<Seq<JsonV>>, Option<Seq<JsonV>>)> =
                match url {
                JsonV::Str(s) => Some((Some(s), None, None)),
                JsonV::Object(u) => Some(
                    (
                        match obj_get(u, "raw"@) {
                            Some(JsonV::Str(r)) => Some(r),
                            _ => None,
                        },
                        match obj_get(u, "path"@) {
                            Some(JsonV::Array(p)) => Some(p),
                            _ => None,
                        },
                        match obj_get(u, "query"@) {
                            Some(JsonV::Array(q)) => Some(q),
                            _ => None,
                        },
                    ),
                ),
                _ => None,
            };
            match parts {
                None => Err(PostmanErrV::InvalidUrl),
                Some((raw_hint, segs, qarr)) => {
                    let p0 = match raw_hint {
                        Some(r) => raw_url_path(r),
                        None => match segs {
                            Some(s) => path_from_segments(s),
                            None => seq!['/'],
                        },
                    };
                    let api_path = if p0.len() == 0 {
                        seq!['/']
                    } else {
                        p0
                    };
                    let names = path_param_names(split_char(api_path, '/'));
                    let listed = match qarr {
                        Some(q) => listed_query(q),
                        None => Seq::empty(),
                    };
                    let query = match raw_hint {
                        Some(r) => match find(r, seq!['?']) {
                            Some(i) => raw_query(
                                split_char(r.subrange(i + 1, r.len() as int), '&'),
                                listed,
                            ),
                            None => listed,
                        },
                        None => listed,
                    };
                    Ok((api_path, names, query))
                },
            }
        },
    }
}

fn single(c: char) -> (r: Vec<char>)
    ensures
        r@ == seq![c],
{
    let mut v: Vec<char> = Vec::new();
    v.push(c);
    assert(v@ =~= seq![c]);
    v
}

fn path_param_names_exec(api_path: &Vec<char>) -> (r: Vec<String>)
    ensures
        strings_view(r@) == path_param_names(split_char(api_path@, '/')),
{
    let segs = split_char_exec(api_path, '/');
    let ghost sv = views(segs@);
    let open = single('{');
    let close = single('}');
    let mut names: Vec<String> = Vec::new();
    let mut i: usize = 0;
    assert(sv.take(0) =~= Seq::<Seq<char>>::empty());
    assert(strings_view(names@) =~= Seq::<Seq<char>>::empty());
    while i < segs.len()
        invariant
            i <= segs.len(),
            sv == views(segs@),
            open@ == seq!['{'],
            close@ == seq!['}'],
            strings_view(names@) == path_param_names(sv.take(i as int)),
        decreases segs.len() - i,
    {
        assert(sv.take(i + 1).drop_last() =~= sv.take(i as int));
        assert(sv.take(i + 1).last() == segs@[i as int]@);
        let seg = trim_ws_exec(&segs[i]);
        if crate::text::starts_with_exec(&seg, &open) && crate::text::ends_with_exec(&seg, &close)
            && seg.len() > 2 {
            let inner = subvec(&seg, 1, seg.len() - 1);
            let ghost n0 = strings_view(names@);
            names.push(string_of(&inner));
            assert(strings_view(names@) =~= n0.push(inner@));
        }
        i = i + 1;
    }
    assert(sv.take(segs.len() as int) =~= sv);
    names
}

fn listed_query_exec(qarr: &Vec<Json>) -> (r: Vec<(String, String, bool)>)
    ensures
        query_view(r@) == listed_query(values_view(qarr@)),
{
    let ghost qv = values_view(qarr@);
    let mut out: Vec<(String, String, bool)> = Vec::new();
    let mut i: usize = 0;
    assert(qv.take(0) =~= Seq::<JsonV>::empty());
    assert(query_view(out@) =~= Seq::empty());
    while i < qarr.len()
        invariant
            i <= qarr.len(),
            qv == values_view(qarr@),
            query_view(out@) == listed_query(qv.take(i as int)),
        decreases qarr.len() - i,
    {
        assert(qv.take(i + 1).drop_last() =~= qv.take(i as int));
        assert(qv.take(i + 1).last() == qv[i as int]);
        match &qarr[i] {
            Json::Object(qo) => {
                proof {
                    crate::json::lemma_object_view(*qo);
                }
                let disabled = match obj_lookup(qo, "disabled") {
                    Some(Json::Bool(b)) => *b,
                    _ => false,
                };
                let key: String = match obj_lookup(qo, "key") {
                    Some(Json::String(k)) => k.clone(),
                    _ => String::new(),
                };
                let val: String = match obj_lookup(qo, "value") {
                    Some(Json::String(v)) => v.clone(),
                    _ => String::new(),
                };
                if !key.as_str().is_empty() {
                    let ghost o0 = query_view(out@);
                    out.push((key, val, disabled));
                    assert(query_view(out@) =~= o0.push((key@, val@, disabled)));
                }
            },
            _ => {},
        }
        i = i + 1;
    }
    assert(qv.take(qarr.len() as int) =~= qv);
    out
}

fn query_has_key(q: &Vec<(String, String, bool)>, k: &Vec<char>) -> (r: bool)
    ensures
        r == has_query_key(query_view(q@), k@),
{
    let mut i: usize = 0;
    while i < q.len()
        invariant
            i <= q.len(),
            forall|j: int| 0 <= j < i ==> q@[j].0@ != k@,
        decreases q.len() - i,
    {
        let c = chars_of(q[i].0.as_str());
        if crate::postman_text::chars_eq(&c, k) {
            assert(query_view(q@)[i as int].0 == k@);
            return true;
        }
        i = i + 1;
    }
    proof {
        if has_query_key(query_view(q@), k@) {
            let j = choose|j: int|
                0 <= j < query_view(q@).len() && (#[trigger] query_view(q@)[j]).0 == k@;
            assert(q@[j].0@ == k@);
        }
    }
    false
}

fn raw_query_exec(pairs: &Vec<Vec<char>>, q: &mut Vec<(String, String, bool)>)
    ensures
        query_view(final(q)@) == raw_query(views(pairs@), query_view(old(q)@)),
{
    let ghost pv = views(pairs@);
    let ghost q0 = query_view(q@);
    let hash = single('#');
    let eq = single('=');
    let mut i: usize = 0;
    assert(pv.take(0) =~= Seq::<Seq<char>>::empty());
    while i < pairs.len()
        invariant
            i <= pairs.len(),
            pv == views(pairs@),
            q0 == query_view(old(q)@),
            hash@ == seq!['#'],
            eq@ == seq!['='],
            query_view(q@) == raw_query(pv.take(i as int), q0),
        decreases pairs.len() - i,
    {
        assert(pv.take(i + 1).drop_last() =~= pv.take(i as int));
        assert(pv.take(i + 1).last() == pairs@[i as int]@);
        proof {
            lemma_find_bounds(pairs@[i as int]@, seq!['#']);
        }
        let pair = match find_exec(&pairs[i], &hash) {
            Some(h) => subvec(&pairs[i], 0, h),
            None => subvec(&pairs[i], 0, pairs[i].len()),
        };
        assert(pairs@[i as int]@.subrange(0, pairs@[i as int]@.len() as int) =~= pairs@[i as int]@);
        if pair.len() > 0 {
            proof {
                lemma_find_bounds(pair@, seq!['=']);
            }
            let (k, v) = match find_exec(&pair, &eq) {
                Some(j) => (subvec(&pair, 0, j), subvec(&pair, j + 1, pair.len())),
                None => (subvec(&pair, 0, pair.len()), Vec::new()),
            };
            assert(pair@.subrange(0, pair@.len() as int) =~= pair@);
            let k2 = trim_ws_exec(&k);
            if k2.len() > 0 && !query_has_key(q, &k2) {
                let v2 = trim_ws_exec(&v);
                let ghost o0 = query_view(q@);
                q.push((string_of(&k2), string_of(&v2), false));
                assert(query_view(q@) =~= o0.push((k2@, v2@, false)));
            }
        }
        i = i + 1;
    }
    assert(pv.take(pairs.len() as int) =~= pv);
}

fn extract_url(request: &Vec<(String, Json)>) -> (r: Result<
    (String, Vec<String>, Vec<(String, String, bool)>),
    PostmanConversionError,
>)
    ensures
        match url_parts(entries_view(request@)) {
            Ok((p, names, query)) => r matches Ok((rp, rn, rq)) && rp@ == p && strings_view(rn@)
                == names && query_view(rq@) == query,
            Err(e) => r matches Err(e2) && e2@ == e,
        },
{
    let url = match obj_lookup(request, "url") {
        Some(u) => u,
        None => {
            return Err(PostmanConversionError::MissingUrl);
        },
    };
    let (raw_hint, path_segments, query_array): (
        Option<&String>,
        Option<&Vec<Json>>,
        Option<&Vec<Json>>,
    ) = match url {
        Json::String(s) => (Some(s), None, None),
        Json::Object(u) => {
            proof {
                crate::json::lemma_object_view(*u);
            }
            let raw = match obj_lookup(u, "raw") {
                Some(Json::String(r)) => Some(r),
                _ => None,
            };
            let segs = match obj_lookup(u, "path") {
                Some(Json::Array(p)) => {
                    proof {
                        crate::json::lemma_array_view(*p);
                    }
                    Some(p)
                },
                _ => None,
            };
            let q = match obj_lookup(u, "query") {
                Some(Json::Array(q)) => {
                    proof {
                        crate::json::lemma_array_view(*q);
                    }
                    Some(q)
                },
                _ => None,
            };
            (raw, segs, q)
        },
        _ => {
            return Err(PostmanConversionError::InvalidUrl);
        },
    };
    let p0: String = match raw_hint {
        Some(r) => path_from_raw_url(r.as_str()),
        None => match path_segments {
            Some(segs) => build_path_from_segments(segs)?,
            None => string_of(&single('/')),
        },
    };
    let api_path: Vec<char> = if p0.as_str().is_empty() {
        single('/')
    } else {
        chars_of(p0.as_str())
    };
    let names = path_param_names_exec(&api_path);
    let mut query: Vec<(String, String, bool)> = match query_array {
        Some(q) => listed_query_exec(q),
        None => {
            let v: Vec<(String, String, bool)> = Vec::new();
            assert(query_view(v@) =~= Seq::empty());
            v
        },
    };
    match raw_hint {
        Some(r) => {
            let rc = chars_of(r.as_str());
            let qm = single('?');
            proof {
                lemma_find_bounds(rc@, seq!['?']);
            }
            match find_exec(&rc, &qm) {
                Some(i) => {
                    let rlen = rc.len();
                    assert(i + 1 <= rlen);
                    let qs = subvec(&rc, i + 1, rlen);
                    let pairs = split_char_exec(&qs, '&');
                    raw_query_exec(&pairs, &mut query);
                },
                None => {},
            }
        },
        None => {},
    }
    Ok((string_of(&api_path), names, query))
}

// ---------------------------------------------------------------------------
// Walking the items
// ---------------------------------------------------------------------------

/// One request of the collection, as collected from the items.
pub struct CollectedOperation {
    pub operation_id: String,
    pub display_name: String,
    pub method: String,
    pub api_path: String,
    pub parameters: Vec<Json>,
    pub request_body_schema: Json,
    pub description: Option<String>,
}

/// The model of a [`CollectedOperation`].
pub struct CollectedOpV {
    pub operation_id: Seq<char>,
    pub display_name: Seq<char>,
    pub method: Seq<char>,
    pub api_path: Seq<char>,
    pub parameters: Seq<JsonV>,
    pub request_body_schema: JsonV,
    pub description: Option<Seq<char>>,
}

impl View for CollectedOperation {
    type V = CollectedOpV;

    open spec fn view(&self) -> CollectedOpV {
        CollectedOpV {
            operation_id: self.operation_id@,
            display_name: self.display_name@,
            method: self.method@,
            api_path: self.api_path@,
            parameters: values_view(self.parameters@),
            request_body_schema: self.request_body_schema@,
            description: crate::openapi::opt_view(self.description),
        }
    }
}

pub open spec fn cops_view(v: Seq<CollectedOperation>) -> Seq<CollectedOpV> {
    Seq::new(v.len(), |i: int| v[i]@)
}

/// `{"type": "string"}`.
pub open spec fn string_schema() -> JsonV {
    crate::postman_body::type_schema("string"@)
}

/// The OpenAPI parameter object of a parameter named `name` in `loc`.
pub open spec fn param_object(name: Seq<char>, loc: Seq<char>, required: bool) -> JsonV {
    JsonV::Object(
        obj_insert(
            obj_insert(
                obj_insert(
                    obj_insert(Seq::empty(), "name"@, JsonV::Str(name)),
                    "in"@,
                    JsonV::Str(loc),
                ),
                "required"@,
                JsonV::Bool(required),
            ),
            "schema"@,
            string_schema(),
        ),
    )
}

/// The parameters of a request: every path parameter (required), then every
/// enabled query parameter (not required, since sample values such as API
/// keys should not force `required`).
pub open spec fn request_params(
    names: Seq<Seq<char>>,
    query: Seq<(Seq<char>, Seq<char>, bool)>,
) -> Seq<JsonV> {
    Seq::new(names.len(), |i: int| param_object(names[i], "path"@, true)) + enabled_query_params(
        query,
    )
}

pub open spec fn enabled_query_params(query: Seq<(Seq<char>, Seq<char>, bool)>) -> Seq<JsonV>
    decreases query.len(),
{
    if query.len() == 0 {
        Seq::empty()
    } else {
        let prev = enabled_query_params(query.drop_last());
        if query.last().2 {
            prev
        } else {
            prev.push(param_object(query.last().0, "query"@, false))
        }
    }
}

/// What a request item contributes: the collected operation and the texts
/// whose parse outcome was consulted.
pub open spec fn request_op(
    item: JsonV,
    req: JsonV,
    stack: Seq<Seq<char>>,
    used: Seq<Seq<char>>,
    p: Seq<(Seq<char>, Option<JsonV>)>,
) -> Result<(CollectedOpV, Seq<Seq<char>>), PostmanErrV> {
    match resolve_request(req) {
        Err(e) => Err(e),
        Ok(r) => {
            let name = match get_str(item, "name"@) {
                Some(n) => n,
                None => "request"@,
            };
            let display = join_with(stack.push(name), display_sep());
            let id = unique_id(id_base(display), used);
            let method = lowercase_str(
                match obj_get(r, "method"@) {
                    Some(JsonV::Str(m)) => m,
                    _ => "GET"@,
                },
            );
            match url_parts(r) {
                Err(e) => Err(e),
                Ok((api_path, names, query)) => {
                    let (schema, cons) = body_schema(r, p);
                    let description = match obj_get(r, "description"@) {
                        Some(JsonV::Str(d)) => Some(d),
                        _ => get_str(item, "description"@),
                    };
                    Ok(
                        (
                            CollectedOpV {
                                operation_id: id,
                                display_name: display,
                                method: method,
                                api_path: api_path,
                                parameters: request_params(names, query),
                                request_body_schema: schema,
                                description: description,
                            },
                            cons,
                        ),
                    )
                },
            }
        },
    }
}

/// The segment, spaces trimmed, is written `{name}` with a non-empty name.
pub open spec fn braced_segment(seg: Seq<char>) -> bool {
    let t = trim_ws(seg);
    t.len() > 2 && t[0] == '{' && t[t.len() - 1] == '}'
}

/// The name between the braces of a `{name}` segment.
pub open spec fn braced_name(seg: Seq<char>) -> Seq<char> {
    let t = trim_ws(seg);
    t.subrange(1, t.len() - 1)
}

proof fn lemma_braced_name_listed(segs: Seq<Seq<char>>, j: int)
    requires
        0 <= j < segs.len(),
        braced_segment(segs[j]),
    ensures
        exists|k: int|
            0 <= k < path_param_names(segs).len() && #[trigger] path_param_names(segs)[k]
                == braced_name(segs[j]),
    decreases segs.len(),
{
    let d = segs.drop_last();
    let prev = path_param_names(d);
    let seg = trim_ws(segs.last());
    let braced = starts_with(seg, seq!['{']) && ends_with(seg, seq!['}']) && seg.len() > 2;
    if j == segs.len() - 1 {
        assert(seg.subrange(0, 1) =~= seq!['{']);
        assert(seg.subrange(seg.len() - 1, seg.len() as int) =~= seq!['}']);
        assert(braced);
        assert(path_param_names(segs)[prev.len() as int] == braced_name(segs[j]));
    } else {
        assert(d[j] == segs[j]);
        lemma_braced_name_listed(d, j);
        let k = choose|k: int| 0 <= k < prev.len() && #[trigger] prev[k] == braced_name(segs[j]);
        assert(path_param_names(segs)[k] == prev[k]);
    }
}

proof fn lemma_param_object_fields(name: Seq<char>, loc: Seq<char>, required: bool)
    ensures
        jget(param_object(name, loc, required), "name"@) == Some(JsonV::Str(name)),
        jget(param_object(name, loc, required), "in"@) == Some(JsonV::Str(loc)),
        jget(param_object(name, loc, required), "required"@) == Some(JsonV::Bool(required)),
{
    reveal_strlit("name");
    reveal_strlit("in");
    reveal_strlit("required");
    reveal_strlit("schema");
    assert("name"@.len() != "in"@.len() && "name"@.len() != "required"@.len());
    assert("name"@.len() != "schema"@.len() && "in"@.len() != "required"@.len());
    assert("in"@.len() != "schema"@.len() && "required"@.len() != "schema"@.len());
    let e1 = obj_insert(Seq::empty(), "name"@, JsonV::Str(name));
    let e2 = obj_insert(e1, "in"@, JsonV::Str(loc));
    let e3 = obj_insert(e2, "required"@, JsonV::Bool(required));
    let e4 = obj_insert(e3, "schema"@, string_schema());
    crate::json::lemma_obj_insert_get(Seq::empty(), "name"@, JsonV::Str(name), "name"@);
    crate::json::lemma_obj_insert_get(e1, "in"@, JsonV::Str(loc), "name"@);
    crate::json::lemma_obj_insert_get(e2, "required"@, JsonV::Bool(required), "name"@);
    crate::json::lemma_obj_insert_get(e2, "required"@, JsonV::Bool(required), "in"@);
    crate::json::lemma_obj_insert_get(e3, "schema"@, string_schema(), "name"@);
    crate::json::lemma_obj_insert_get(e3, "schema"@, string_schema(), "in"@);
    crate::json::lemma_obj_insert_get(e3, "schema"@, string_schema(), "required"@);
}

/// Every segment of a converted request's API path written `{name}` (spaces
/// around it trimmed) gives the operation a parameter named `name`, located
/// in the path and required.
pub proof fn lemma_path_segments_are_parameters(
    item: JsonV,
    req: JsonV,
    stack: Seq<Seq<char>>,
    used: Seq<Seq<char>>,
    p: Seq<(Seq<char>, Option<JsonV>)>,
    op: CollectedOpV,
    cons: Seq<Seq<char>>,
    j: int,
)
    requires
        request_op(item, req, stack, used, p) == Ok::<_, PostmanErrV>((op, cons)),
        0 <= j < split_char(op.api_path, '/').len(),
        braced_segment(split_char(op.api_path, '/')[j]),
    ensures
        exists|k: int|
            0 <= k < op.parameters.len() && jget(#[trigger] op.parameters[k], "name"@) == Some(
                JsonV::Str(braced_name(split_char(op.api_path, '/')[j])),
            ) && jget(op.parameters[k], "in"@) == Some(JsonV::Str("path"@)) && jget(
                op.parameters[k],
                "required"@,
            ) == Some(JsonV::Bool(true)),
{
    let r = resolve_request(req)->Ok_0;
    let (api_path, names, query) = url_parts(r)->Ok_0;
    let segs = split_char(api_path, '/');
    assert(op.api_path == api_path);
    assert(names == path_param_names(segs));
    assert(op.parameters == request_params(names, query));
    lemma_braced_name_listed(segs, j);
    let k = choose|k: int| 0 <= k < names.len() && #[trigger] names[k] == braced_name(segs[j]);
    assert(op.parameters[k] == param_object(names[k], "path"@, true));
    lemma_param_object_fields(names[k], "path"@, true);
}

/// Every segment of the operation's API path written `{name}` has a
/// parameter named `name` among the operation's parameters, located in the
/// path and required.
pub open spec fn lists_path_params(op: CollectedOpV) -> bool {
    forall|j: int|
        0 <= j < split_char(op.api_path, '/').len() && #[trigger] braced_segment(
            split_char(op.api_path, '/')[j],
        ) ==> exists|k: int|
            0 <= k < op.parameters.len() && jget(#[trigger] op.parameters[k], "name"@) == Some(
                JsonV::Str(braced_name(split_char(op.api_path, '/')[j])),
            ) && jget(op.parameters[k], "in"@) == Some(JsonV::Str("path"@)) && jget(
                op.parameters[k],
                "required"@,
            ) == Some(JsonV::Bool(true))
}

/// The outcome of walking items: the operations collected, the identifiers
/// in use afterwards, and the texts whose parse outcome was consulted.
pub struct WalkV {
    pub ops: Seq<CollectedOpV>,
    pub used: Seq<Seq<char>>,
    pub consulted: Seq<Seq<char>>,
}

/// Walk the items in order: a folder (an item with an `item` array) is walked
/// with its name (or `folder`) pushed on the folder path; an item with a
/// `request` contributes one operation; other items are skipped.
pub open spec fn walk(
    items: Seq<JsonV>,
    stack: Seq<Seq<char>>,
    used: Seq<Seq<char>>,
    p: Seq<(Seq<char>, Option<JsonV>)>,
) -> Result<WalkV, PostmanErrV>
    decreases seq_size(items),
{
    if items.len() == 0 {
        Ok(WalkV { ops: Seq::empty(), used: used, consulted: Seq::empty() })
    } else {
        proof {
            crate::json::lemma_jsize_pos(items.last());
        }
        match walk(items.drop_last(), stack, used, p) {
            Err(e) => Err(e),
            Ok(w) => {
                let item = items.last();
                match get_arr(item, "item"@) {
                    Some(sub) => {
                        proof {
                            lemma_jget_smaller(item, "item"@);
                        }
                        let name = match get_str(item, "name"@) {
                            Some(n) => n,
                            None => "folder"@,
                        };
                        match walk(sub, stack.push(name), w.used, p) {
                            Err(e) => Err(e),
                            Ok(w2) => Ok(
                                WalkV {
                                    ops: w.ops + w2.ops,
                                    used: w2.used,
                                    consulted: w.consulted + w2.consulted,
                                },
                            ),
                        }
                    },
                    None => match jget(item, "request"@) {
                        None => Ok(w),
                        Some(req) => match request_op(item, req, stack, w.used, p) {
                            Err(e) => Err(e),
                            Ok((op, cons)) => Ok(
                                WalkV {
                                    ops: w.ops.push(op),
                                    used: w.used.push(op.operation_id),
                                    consulted: w.consulted + cons,
                                },
                            ),
                        },
                    },
                }
            },
        }
    }
}

proof fn lemma_walk_err_extends(
    items: Seq<JsonV>,
    i: int,
    stack: Seq<Seq<char>>,
    used: Seq<Seq<char>>,
    p: Seq<(Seq<char>, Option<JsonV>)>,
)
    requires
        0 <= i <= items.len(),
        walk(items.take(i), stack, used, p) is Err,
    ensures
        walk(items, stack, used, p) == walk(items.take(i), stack, used, p),
    decreases items.len() - i,
{
    if i < items.len() {
        assert(items.take(i + 1).drop_last() =~= items.take(i));
        lemma_walk_err_extends(items, i + 1, stack, used, p);
    } else {
        assert(items.take(i) =~= items);
    }
}

fn string_schema_exec() -> (r: Json)
    ensures
        r@ == string_schema(),
{
    let mut e: Vec<(String, Json)> = Vec::new();
    assert(entries_view(e@) =~= Seq::empty());
    obj_set(&mut e, "type", Json::from_str("string"));
    Json::object(e)
}

fn param_object_exec(name: &String, loc: &str, required: bool) -> (r: Json)
    ensures
        r@ == param_object(name@, loc@, required),
{
    let mut e: Vec<(String, Json)> = Vec::new();
    assert(entries_view(e@) =~= Seq::empty());
    obj_set(&mut e, "name", Json::String(name.clone()));
    obj_set(&mut e, "in", Json::from_str(loc));
    obj_set(&mut e, "required", Json::Bool(required));
    obj_set(&mut e, "schema", string_schema_exec());
    Json::object(e)
}

fn request_params_exec(names: &Vec<String>, query: &Vec<(String, String, bool)>) -> (r: Vec<Json>)
    ensures
        values_view(r@) == request_params(strings_view(names@), query_view(query@)),
{
    let mut params: Vec<Json> = Vec::new();
    let mut i: usize = 0;
    let ghost nv = strings_view(names@);
    while i < names.len()
        invariant
            i <= names.len(),
            nv == strings_view(names@),
            params@.len() == i,
            forall|k: int| 0 <= k < i ==> #[trigger] params@[k]@ == param_object(nv[k], "path"@, true),
        decreases names.len() - i,
    {
        params.push(param_object_exec(&names[i], "path", true));
        i = i + 1;
    }
    assert(values_view(params@) =~= Seq::new(
        names.len() as nat,
        |k: int| param_object(nv[k], "path"@, true),
    ));
    let ghost head = values_view(params@);
    let ghost qv = query_view(query@);
    let mut j: usize = 0;
    assert(qv.take(0) =~= Seq::<(Seq<char>, Seq<char>, bool)>::empty());
    assert(head + enabled_query_params(qv.take(0)) =~= head);
    while j < query.len()
        invariant
            j <= query.len(),
            qv == query_view(query@),
            values_view(params@) == head + enabled_query_params(qv.take(j as int)),
        decreases query.len() - j,
    {
        assert(qv.take(j + 1).drop_last() =~= qv.take(j as int));
        assert(qv.take(j + 1).last() == qv[j as int]);
        if !query[j].2 {
            let ghost p0 = values_view(params@);
            params.push(param_object_exec(&query[j].0, "query", false));
            assert(values_view(params@) =~= p0.push(param_object(qv[j as int].0, "query"@, false)));
        }
        j = j + 1;
    }
    assert(qv.take(query.len() as int) =~= qv);
    assert(head =~= Seq::new(names.len() as nat, |k: int| param_object(nv[k], "path"@, true)));
    params
}

fn collect_request(
    item: &Json,
    request: &Json,
    folder_stack: &Vec<String>,
    used_ids: &mut Vec<String>,
    parsed: &Vec<(String, Option<Json>)>,
    consulted: &mut Vec<String>,
) -> (r: Result<CollectedOperation, PostmanConversionError>)
    ensures
        match request_op(
            item@,
            request@,
            strings_view(folder_stack@),
            strings_view(old(used_ids)@),
            parsed_view(parsed@),
        ) {
            Ok((op, cons)) => r matches Ok(c) && c@ == op && strings_view(final(used_ids)@)
                == strings_view(old(used_ids)@).push(op.operation_id) && strings_view(
                final(consulted)@,
            ) == strings_view(old(consulted)@) + cons,
            Err(e) => r matches Err(e2) && e2@ == e,
        },
{
    let req = resolve_request_object(request)?;
    let name: String = match item.get("name") {
        Some(Json::String(n)) => n.clone(),
        _ => "request".to_owned(),
    };
    let display_name = join_display_path(folder_stack, name.as_str());
    let operation_id = unique_snake_id(display_name.as_str(), used_ids);
    let method = match obj_lookup(req, "method") {
        Some(Json::String(m)) => str_to_lowercase(m.as_str()),
        _ => str_to_lowercase("GET"),
    };
    let (api_path, path_param_names, query_specs) = extract_url(req)?;
    let parameters = request_params_exec(&path_param_names, &query_specs);
    let request_body_schema = extract_body_schema(req, parsed, consulted);
    let description: Option<String> = match obj_lookup(req, "description") {
        Some(Json::String(d)) => Some(d.clone()),
        _ => match item.get("description") {
            Some(Json::String(d)) => Some(d.clone()),
            _ => None,
        },
    };
    Ok(
        CollectedOperation {
            operation_id,
            display_name,
            method,
            api_path,
            parameters,
            request_body_schema,
            description,
        },
    )
}

fn walk_items(
    items: &Vec<Json>,
    folder_stack: &mut Vec<String>,
    out: &mut Vec<CollectedOperation>,
    used_ids: &mut Vec<String>,
    parsed: &Vec<(String, Option<Json>)>,
    consulted: &mut Vec<String>,
) -> (r: Result<(), PostmanConversionError>)
    ensures
        match walk(
            values_view(items@),
            strings_view(old(folder_stack)@),
            strings_view(old(used_ids)@),
            parsed_view(parsed@),
        ) {
            Ok(w) => r is Ok && strings_view(final(folder_stack)@) == strings_view(
                old(folder_stack)@,
            ) && cops_view(final(out)@) == cops_view(old(out)@) + w.ops && strings_view(
                final(used_ids)@,
            ) == w.used && strings_view(final(consulted)@) == strings_view(old(consulted)@)
                + w.consulted,
            Err(e) => r matches Err(e2) && e2@ == e,
        },
    decreases seq_size(values_view(items@)),
{
    let ghost iv = values_view(items@);
    let ghost stack0 = strings_view(folder_stack@);
    let ghost used0 = strings_view(used_ids@);
    let ghost out0 = cops_view(out@);
    let ghost cons0 = strings_view(consulted@);
    let ghost pv = parsed_view(parsed@);
    let mut i: usize = 0;
    assert(iv.take(0) =~= Seq::<JsonV>::empty());
    assert(out0 + Seq::<CollectedOpV>::empty() =~= out0);
    assert(cons0 + Seq::<Seq<char>>::empty() =~= cons0);
    while i < items.len()
        invariant
            i <= items.len(),
            iv == values_view(items@),
            pv == parsed_view(parsed@),
            stack0 == strings_view(old(folder_stack)@),
            used0 == strings_view(old(used_ids)@),
            out0 == cops_view(old(out)@),
            cons0 == strings_view(old(consulted)@),
            strings_view(folder_stack@) == stack0,
            walk(iv.take(i as int), stack0, used0, pv) is Ok,
            cops_view(out@) == out0 + walk(iv.take(i as int), stack0, used0, pv)->Ok_0.ops,
            strings_view(used_ids@) == walk(iv.take(i as int), stack0, used0, pv)->Ok_0.used,
            strings_view(consulted@) == cons0 + walk(
                iv.take(i as int),
                stack0,
                used0,
                pv,
            )->Ok_0.consulted,
        decreases items.len() - i,
    {
        let ghost pre = iv.take(i as int);
        let ghost w = walk(pre, stack0, used0, pv)->Ok_0;
        assert(iv.take(i + 1).drop_last() =~= pre);
        assert(iv.take(i + 1).last() == iv[i as int]);
        let item = &items[i];
        let sub_items: Option<&Vec<Json>> = match item.get("item") {
            Some(Json::Array(sub)) => Some(sub),
            _ => None,
        };
        match sub_items {
            Some(sub) => {
                proof {
                    crate::json::lemma_array_view(*sub);
                    lemma_jget_smaller(iv[i as int], "item"@);
                    lemma_seq_size_elem(iv, i as int);
                }
                let name: String = match item.get("name") {
                    Some(Json::String(n)) => n.clone(),
                    _ => "folder".to_owned(),
                };
                let ghost nm = name@;
                folder_stack.push(name);
                assert(strings_view(folder_stack@) =~= stack0.push(nm));
                let res = walk_items(sub, folder_stack, out, used_ids, parsed, consulted);
                match res {
                    Ok(()) => {},
                    Err(e) => {
                        proof {
                            lemma_walk_err_extends(iv, i + 1, stack0, used0, pv);
                        }
                        return Err(e);
                    },
                }
                let ghost before_pop = folder_stack@;
                assert(strings_view(before_pop) == stack0.push(nm));
                folder_stack.pop();
                assert(folder_stack@ =~= before_pop.drop_last());
                assert forall|k: int| 0 <= k < stack0.len() implies #[trigger] folder_stack@[k]@
                    == stack0[k] by {
                    assert(folder_stack@[k] == before_pop[k]);
                    assert(strings_view(before_pop)[k] == stack0.push(nm)[k]);
                }
                assert(strings_view(folder_stack@) =~= stack0);
                let ghost w2 = walk(iv.take(i + 1), stack0, used0, pv)->Ok_0;
                assert(cops_view(out@) =~= out0 + w2.ops);
                assert(strings_view(consulted@) =~= cons0 + w2.consulted);
            },
            None => {
                match item.get("request") {
                    None => {},
                    Some(request) => {
                        let ghost o1 = cops_view(out@);
                        let ghost c1 = strings_view(consulted@);
                        match collect_request(
                            item,
                            request,
                            folder_stack,
                            used_ids,
                            parsed,
                            consulted,
                        ) {
                            Ok(op) => {
                                out.push(op);
                                let ghost w2 = walk(iv.take(i + 1), stack0, used0, pv)->Ok_0;
                                assert(cops_view(out@) =~= o1.push(out@.last()@));
                                assert(cops_view(out@) =~= out0 + w2.ops);
                                assert(strings_view(consulted@) =~= cons0 + w2.consulted);
                            },
                            Err(e) => {
                                proof {
                                    lemma_walk_err_extends(iv, i + 1, stack0, used0, pv);
                                }
                                return Err(e);
                            },
                        }
                    },
                }
            },
        }
        i = i + 1;
    }
    assert(iv.take(items.len() as int) =~= iv);
    Ok(())
}

// ---------------------------------------------------------------------------
// Building the OpenAPI document
// ---------------------------------------------------------------------------

pub open spec fn ins(e: Seq<(Seq<char>, JsonV)>, k: Seq<char>, v: JsonV) -> Seq<(Seq<char>, JsonV)> {
    obj_insert(e, k, v)
}

/// The untyped `200` response given to every converted operation.
pub open spec fn responses_obj() -> JsonV {
    let schema = JsonV::Object(
        ins(
            ins(
                ins(
                    ins(Seq::empty(), "type"@, JsonV::Str("object"@)),
                    "additionalProperties"@,
                    JsonV::Bool(true),
                ),
                "x-connector-untyped-response"@,
                JsonV::Bool(true),
            ),
            "description"@,
            JsonV::Str(
                "Postman collections do not define response bodies; refine this schema from API docs or samples."@,
            ),
        ),
    );
    let json_media = JsonV::Object(ins(Seq::empty(), "schema"@, schema));
    let content = JsonV::Object(ins(Seq::empty(), "application/json"@, json_media));
    let ok = JsonV::Object(
        ins(ins(Seq::empty(), "description"@, JsonV::Str("OK"@)), "content"@, content),
    );
    JsonV::Object(ins(Seq::empty(), "200"@, ok))
}

/// `{"content": {"application/json": {"schema": schema}}}`.
pub open spec fn request_body_obj(schema: JsonV) -> JsonV {
    let json_media = JsonV::Object(ins(Seq::empty(), "schema"@, schema));
    let content = JsonV::Object(ins(Seq::empty(), "application/json"@, json_media));
    JsonV::Object(ins(Seq::empty(), "content"@, content))
}

/// A request body is declared unless its schema is the empty object.
pub open spec fn has_request_body(schema: JsonV) -> bool {
    !(match schema {
        JsonV::Object(e) => e.len() == 0,
        _ => false,
    }) || jget(schema, "type"@) is Some
}

/// The OpenAPI operation object of a collected request.
pub open spec fn method_object(op: CollectedOpV) -> JsonV {
    let e1 = ins(
        ins(Seq::empty(), "operationId"@, JsonV::Str(op.operation_id)),
        "summary"@,
        JsonV::Str(op.display_name),
    );
    let e2 = match op.description {
        Some(d) => if d.len() > 0 {
            ins(e1, "description"@, JsonV::Str(d))
        } else {
            e1
        },
        None => e1,
    };
    let e3 = ins(
        ins(e2, "x-connector-api-path"@, JsonV::Str(op.api_path)),
        "parameters"@,
        JsonV::Array(op.parameters),
    );
    let e4 = if has_request_body(op.request_body_schema) {
        ins(e3, "requestBody"@, request_body_obj(op.request_body_schema))
    } else {
        e3
    };
    JsonV::Object(ins(e4, "responses"@, responses_obj()))
}

pub open spec fn postman_prefix() -> Seq<char> {
    "/_postman/"@
}

/// The internal path of a collected request.
pub open spec fn internal_path(op: CollectedOpV) -> Seq<char> {
    postman_prefix() + op.operation_id
}

/// The paths object: each operation stored under its internal path and its
/// lowercased method.
pub open spec fn paths_of(ops: Seq<CollectedOpV>) -> Result<Seq<(Seq<char>, JsonV)>, PostmanErrV>
    decreases ops.len(),
{
    if ops.len() == 0 {
        Ok(Seq::empty())
    } else {
        match paths_of(ops.drop_last()) {
            Err(e) => Err(e),
            Ok(paths) => {
                let op = ops.last();
                let ip = internal_path(op);
                let mk = lowercase_str(op.method);
                match obj_get(paths, ip) {
                    None => Ok(ins(paths, ip, JsonV::Object(ins(Seq::empty(), mk, method_object(op))))),
                    Some(JsonV::Object(pe)) => Ok(ins(paths, ip, JsonV::Object(ins(pe, mk, method_object(op))))),
                    Some(_) => Err(PostmanErrV::InvalidStructure("path value"@)),
                }
            },
        }
    }
}

/// The title of the converted document: the collection's `info.name`, else
/// `Postman collection`.
pub open spec fn collection_title(col: JsonV) -> Seq<char> {
    match jget(col, "info"@) {
        Some(info) => match get_str(info, "name"@) {
            Some(t) => t,
            None => "Postman collection"@,
        },
        None => "Postman collection"@,
    }
}

/// The OpenAPI 3.0 document made of a collection, given the parse outcomes
/// of its raw bodies.
pub open spec fn to_openapi(col: JsonV, p: Seq<(Seq<char>, Option<JsonV>)>) -> Result<JsonV, PostmanErrV> {
    match get_arr(col, "item"@) {
        None => Err(PostmanErrV::MissingItemArray),
        Some(items) => match walk(items, Seq::empty(), Seq::empty(), p) {
            Err(e) => Err(e),
            Ok(w) => if w.ops.len() == 0 {
                Err(PostmanErrV::NoRequests)
            } else {
                match paths_of(w.ops) {
                    Err(e) => Err(e),
                    Ok(paths) => {
                        let info = JsonV::Object(
                            ins(
                                ins(Seq::empty(), "title"@, JsonV::Str(collection_title(col))),
                                "version"@,
                                JsonV::Str("1.0.0"@),
                            ),
                        );
                        Ok(
                            JsonV::Object(
                                ins(
                                    ins(
                                        ins(Seq::empty(), "openapi"@, JsonV::Str("3.0.0"@)),
                                        "info"@,
                                        info,
                                    ),
                                    "paths"@,
                                    JsonV::Object(paths),
                                ),
                            ),
                        )
                    },
                }
            },
        },
    }
}

/// The raw-body texts whose parse outcome the conversion of `col` reads.
pub open spec fn body_texts(col: JsonV) -> Result<Seq<Seq<char>>, PostmanErrV> {
    match get_arr(col, "item"@) {
        None => Err(PostmanErrV::MissingItemArray),
        Some(items) => match walk(items, Seq::empty(), Seq::empty(), Seq::empty()) {
            Err(e) => Err(e),
            Ok(w) => Ok(w.consulted),
        },
    }
}

proof fn lemma_paths_err_extends(ops: Seq<CollectedOpV>, i: int)
    requires
        0 <= i <= ops.len(),
        paths_of(ops.take(i)) is Err,
    ensures
        paths_of(ops) == paths_of(ops.take(i)),
    decreases ops.len() - i,
{
    if i < ops.len() {
        assert(ops.take(i + 1).drop_last() =~= ops.take(i));
        lemma_paths_err_extends(ops, i + 1);
    } else {
        assert(ops.take(i) =~= ops);
    }
}

fn responses_exec() -> (r: Json)
    ensures
        r@ == responses_obj(),
{
    let mut schema: Vec<(String, Json)> = Vec::new();
    assert(entries_view(schema@) =~= Seq::empty());
    obj_set(&mut schema, "type", Json::from_str("object"));
    obj_set(&mut schema, "additionalProperties", Json::Bool(true));
    obj_set(&mut schema, "x-connector-untyped-response", Json::Bool(true));
    obj_set(
        &mut schema,
        "description",
        Json::from_str(
            "Postman collections do not define response bodies; refine this schema from API docs or samples.",
        ),
    );
    let mut media: Vec<(String, Json)> = Vec::new();
    assert(entries_view(media@) =~= Seq::empty());
    obj_set(&mut media, "schema", Json::object(schema));
    let mut content: Vec<(String, Json)> = Vec::new();
    assert(entries_view(content@) =~= Seq::empty());
    obj_set(&mut content, "application/json", Json::object(media));
    let mut ok: Vec<(String, Json)> = Vec::new();
    assert(entries_view(ok@) =~= Seq::empty());
    obj_set(&mut ok, "description", Json::from_str("OK"));
    obj_set(&mut ok, "content", Json::object(content));
    let mut r: Vec<(String, Json)> = Vec::new();
    assert(entries_view(r@) =~= Seq::empty());
    obj_set(&mut r, "200", Json::object(ok));
    Json::object(r)
}

fn request_body_exec(schema: Json) -> (r: Json)
    ensures
        r@ == request_body_obj(schema@),
{
    let mut media: Vec<(String, Json)> = Vec::new();
    assert(entries_view(media@) =~= Seq::empty());
    obj_set(&mut media, "schema", schema);
    let mut content: Vec<(String, Json)> = Vec::new();
    assert(entries_view(content@) =~= Seq::empty());
    obj_set(&mut content, "application/json", Json::object(media));
    let mut r: Vec<(String, Json)> = Vec::new();
    assert(entries_view(r@) =~= Seq::empty());
    obj_set(&mut r, "content", Json::object(content));
    Json::object(r)
}

fn method_object_exec(op: CollectedOperation) -> (r: Json)
    ensures
        r@ == method_object(op@),
{
    let ghost opv = op@;
    let mut m: Vec<(String, Json)> = Vec::new();
    assert(entries_view(m@) =~= Seq::empty());
    obj_set(&mut m, "operationId", Json::String(op.operation_id));
    obj_set(&mut m, "summary", Json::String(op.display_name));
    match op.description {
        Some(desc) => {
            if !desc.as_str().is_empty() {
                obj_set(&mut m, "description", Json::String(desc));
            }
        },
        None => {},
    }
    obj_set(&mut m, "x-connector-api-path", Json::String(op.api_path));
    obj_set(&mut m, "parameters", Json::array(op.parameters));
    let schema = op.request_body_schema;
    let empty_object = match &schema {
        Json::Object(o) => o.len() == 0,
        _ => false,
    };
    proof {
        match &schema {
            Json::Object(o) => crate::json::lemma_object_view(*o),
            _ => {},
        }
    }
    if !empty_object || schema.get("type").is_some() {
        obj_set(&mut m, "requestBody", request_body_exec(schema));
    }
    obj_set(&mut m, "responses", responses_exec());
    Json::object(m)
}

/// Convert a Postman collection JSON value into a minimal OpenAPI 3.0
/// document. `parsed` holds the parse outcomes of raw body texts (see
/// [`postman_body_texts`]).
pub fn postman_collection_to_openapi(
    collection: &Json,
    parsed: &Vec<(String, Option<Json>)>,
) -> (r: Result<Json, PostmanConversionError>)
    ensures
        match to_openapi(collection@, parsed_view(parsed@)) {
            Ok(v) => r matches Ok(j) && j@ == v,
            Err(e) => r matches Err(e2) && e2@ == e,
        },
{
    let items = match collection.get("item") {
        Some(Json::Array(a)) => a,
        _ => {
            return Err(PostmanConversionError::MissingItemArray);
        },
    };
    proof {
        crate::json::lemma_array_view(*items);
    }
    let title: String = match collection.get("info") {
        Some(info) => match info.get("name") {
            Some(Json::String(t)) => t.clone(),
            _ => "Postman collection".to_owned(),
        },
        None => "Postman collection".to_owned(),
    };
    let mut operations: Vec<CollectedOperation> = Vec::new();
    let mut stack: Vec<String> = Vec::new();
    let mut used: Vec<String> = Vec::new();
    let mut consulted: Vec<String> = Vec::new();
    assert(strings_view(stack@) =~= Seq::<Seq<char>>::empty());
    assert(strings_view(used@) =~= Seq::<Seq<char>>::empty());
    assert(cops_view(operations@) =~= Seq::<CollectedOpV>::empty());
    walk_items(items, &mut stack, &mut operations, &mut used, parsed, &mut consulted)?;
    let ghost ops = cops_view(operations@);
    assert(ops =~= walk(values_view(items@), Seq::empty(), Seq::empty(), parsed_view(parsed@))->Ok_0.ops);
    if operations.len() == 0 {
        return Err(PostmanConversionError::NoRequests);
    }
    let mut paths: Vec<(String, Json)> = Vec::new();
    assert(entries_view(paths@) =~= Seq::empty());
    let mut i: usize = 0;
    assert(ops.take(0) =~= Seq::<CollectedOpV>::empty());
    let total = operations.len();
    assert(paths_of(ops) is Err ==> to_openapi(collection@, parsed_view(parsed@)) == Err::<
        JsonV,
        PostmanErrV,
    >(paths_of(ops)->Err_0));
    let mut rest = operations;
    // operations are taken from the front, one by one
    let mut taken: usize = 0;
    assert(cops_view(rest@) =~= ops.skip(0));
    while rest.len() > 0
        invariant
            taken + rest.len() == ops.len(),
            total == ops.len(),
            paths_of(ops) is Err ==> to_openapi(collection@, parsed_view(parsed@)) == Err::<
                JsonV,
                PostmanErrV,
            >(paths_of(ops)->Err_0),
            cops_view(rest@) == ops.skip(taken as int),
            paths_of(ops.take(taken as int)) == Ok::<Seq<(Seq<char>, JsonV)>, PostmanErrV>(
                entries_view(paths@),
            ),
        decreases rest.len(),
    {
        let ghost r0 = rest@;
        assert(cops_view(r0)[0] == ops.skip(taken as int)[0]);
        let op = rest.remove(0);
        assert(rest@ =~= r0.subrange(1, r0.len() as int));
        assert(op@ == ops[taken as int]);
        assert forall|k: int| 0 <= k < rest@.len() implies #[trigger] cops_view(rest@)[k]
            == ops.skip(taken + 1)[k] by {
            assert(rest@[k] == r0[k + 1]);
            assert(cops_view(r0)[k + 1] == ops.skip(taken as int)[k + 1]);
        }
        assert(cops_view(rest@) =~= ops.skip(taken + 1));
        assert(ops.take(taken + 1).drop_last() =~= ops.take(taken as int));
        assert(ops.take(taken + 1).last() == ops[taken as int]);
        let mut ip: Vec<char> = chars_of("/_postman/");
        append_str(&mut ip, op.operation_id.as_str());
        let internal = string_of(&ip);
        let method_key = str_to_lowercase(op.method.as_str());
        let method_obj = method_object_exec(op);
        let existing: Option<Vec<(String, Json)>> = match obj_lookup(&paths, internal.as_str()) {
            None => None,
            Some(Json::Object(pe)) => {
                proof {
                    crate::json::lemma_object_view(*pe);
                }
                Some(crate::json::clone_entries(pe))
            },
            Some(other) => {
                assert(!(other@ is Object));
                assert(internal@ == internal_path(ops[taken as int]));
                assert(paths_of(ops.take(taken + 1)) == Err::<Seq<(Seq<char>, JsonV)>, PostmanErrV>(
                    PostmanErrV::InvalidStructure("path value"@),
                ));
                proof {
                    lemma_paths_err_extends(ops, taken + 1);
                }
                return Err(PostmanConversionError::InvalidStructure("path value".to_owned()));
            },
        };
        let mut path_obj: Vec<(String, Json)> = match existing {
            Some(pe) => pe,
            None => {
                let v: Vec<(String, Json)> = Vec::new();
                assert(entries_view(v@) =~= Seq::empty());
                v
            },
        };
        crate::json::obj_insert_exec(&mut path_obj, method_key, method_obj);
        crate::json::obj_insert_exec(&mut paths, internal, Json::object(path_obj));
        taken = taken + 1;
    }
    assert(ops.take(taken as int) =~= ops);
    let mut info: Vec<(String, Json)> = Vec::new();
    assert(entries_view(info@) =~= Seq::empty());
    obj_set(&mut info, "title", Json::String(title));
    obj_set(&mut info, "version", Json::from_str("1.0.0"));
    let mut doc: Vec<(String, Json)> = Vec::new();
    assert(entries_view(doc@) =~= Seq::empty());
    obj_set(&mut doc, "openapi", Json::from_str("3.0.0"));
    obj_set(&mut doc, "info", Json::object(info));
    obj_set(&mut doc, "paths", Json::object(paths));
    Ok(Json::object(doc))
}

/// The raw-body texts whose JSON parse outcome [`postman_collection_to_openapi`]
/// reads, for each raw body in order: the trimmed text, then the text with
/// template variables outside strings replaced by `null`.
pub fn postman_body_texts(collection: &Json) -> (r: Result<Vec<String>, PostmanConversionError>)
    ensures
        match body_texts(collection@) {
            Ok(t) => r matches Ok(v) && strings_view(v@) == t,
            Err(e) => r matches Err(e2) && e2@ == e,
        },
{
    let items = match collection.get("item") {
        Some(Json::Array(a)) => a,
        _ => {
            return Err(PostmanConversionError::MissingItemArray);
        },
    };
    proof {
        crate::json::lemma_array_view(*items);
    }
    let parsed: Vec<(String, Option<Json>)> = Vec::new();
    assert(parsed_view(parsed@) =~= Seq::empty());
    let mut operations: Vec<CollectedOperation> = Vec::new();
    let mut stack: Vec<String> = Vec::new();
    let mut used: Vec<String> = Vec::new();
    let mut consulted: Vec<String> = Vec::new();
    assert(strings_view(stack@) =~= Seq::<Seq<char>>::empty());
    assert(strings_view(used@) =~= Seq::<Seq<char>>::empty());
    assert(strings_view(consulted@) =~= Seq::<Seq<char>>::empty());
    walk_items(items, &mut stack, &mut operations, &mut used, &parsed, &mut consulted)?;
    assert(strings_view(consulted@) =~= walk(values_view(items@), Seq::empty(), Seq::empty(), Seq::empty())->Ok_0.consulted);
    Ok(consulted)
}

// ---------------------------------------------------------------------------
// Laws of the conversion
// ---------------------------------------------------------------------------

/// The identifiers of collected operations.
pub open spec fn op_ids(ops: Seq<CollectedOpV>) -> Seq<Seq<char>> {
    Seq::new(ops.len(), |i: int| ops[i].operation_id)
}

/// No value occurs twice.
pub open spec fn distinct(s: Seq<Seq<char>>) -> bool {
    forall|i: int, j: int| 0 <= i < j < s.len() ==> #[trigger] s[i] != #[trigger] s[j]
}

/// Walking items gives each request an identifier that no earlier request
/// and no identifier already in use has, and adds exactly those identifiers
/// to the ones in use.
pub proof fn lemma_walk_ids(
    items: Seq<JsonV>,
    stack: Seq<Seq<char>>,
    used: Seq<Seq<char>>,
    p: Seq<(Seq<char>, Option<JsonV>)>,
)
    requires
        walk(items, stack, used, p) is Ok,
    ensures
        ({
            let w = walk(items, stack, used, p)->Ok_0;
            &&& w.used == used + op_ids(w.ops)
            &&& distinct(op_ids(w.ops))
            &&& forall|i: int| 0 <= i < w.ops.len() ==> !used.contains(#[trigger] w.ops[i].operation_id)
        }),
    decreases seq_size(items),
{
    if items.len() == 0 {
        let w = walk(items, stack, used, p)->Ok_0;
        assert(used + op_ids(w.ops) =~= used);
    } else {
        crate::json::lemma_jsize_pos(items.last());
        let prev = items.drop_last();
        lemma_walk_ids(prev, stack, used, p);
        let w = walk(prev, stack, used, p)->Ok_0;
        let item = items.last();
        let wr = walk(items, stack, used, p)->Ok_0;
        match get_arr(item, "item"@) {
            Some(sub) => {
                lemma_jget_smaller(item, "item"@);
                let name = match get_str(item, "name"@) {
                    Some(n) => n,
                    None => "folder"@,
                };
                lemma_walk_ids(sub, stack.push(name), w.used, p);
                let w2 = walk(sub, stack.push(name), w.used, p)->Ok_0;
                assert(wr.ops == w.ops + w2.ops);
                let ids = op_ids(wr.ops);
                let a = op_ids(w.ops);
                let b = op_ids(w2.ops);
                assert(ids =~= a + b);
                assert(wr.used =~= used + ids);
                assert forall|i: int, j: int| 0 <= i < j < ids.len() implies #[trigger] ids[i]
                    != #[trigger] ids[j] by {
                    if j >= a.len() && i < a.len() {
                        assert(w.used[used.len() + i] == a[i]);
                        assert(!w.used.contains(w2.ops[j - a.len()].operation_id));
                    } else if i >= a.len() {
                        assert(b[i - a.len()] != b[j - a.len()]);
                    }
                }
                assert forall|i: int| 0 <= i < wr.ops.len() implies !used.contains(
                    #[trigger] wr.ops[i].operation_id,
                ) by {
                    if i >= w.ops.len() {
                        let x = wr.ops[i].operation_id;
                        assert(x == w2.ops[i - w.ops.len()].operation_id);
                        if used.contains(x) {
                            let k = choose|k: int| 0 <= k < used.len() && used[k] == x;
                            assert(w.used[k] == x);
                        }
                    } else {
                        assert(wr.ops[i] == w.ops[i]);
                    }
                }
            },
            None => match jget(item, "request"@) {
                None => {
                    assert(wr == w);
                },
                Some(req) => {
                    let (op, cons) = request_op(item, req, stack, w.used, p)->Ok_0;
                    let name = match get_str(item, "name"@) {
                        Some(n) => n,
                        None => "request"@,
                    };
                    let display = join_with(stack.push(name), display_sep());
                    crate::postman_text::lemma_unique_id_fresh(id_base(display), w.used);
                    assert(wr.ops == w.ops.push(op));
                    let ids = op_ids(wr.ops);
                    let a = op_ids(w.ops);
                    assert(ids =~= a.push(op.operation_id));
                    assert(wr.used =~= used + ids);
                    assert forall|i: int, j: int| 0 <= i < j < ids.len() implies #[trigger] ids[i]
                        != #[trigger] ids[j] by {
                        if j == a.len() {
                            assert(w.used[used.len() + i] == a[i]);
                        }
                    }
                    assert forall|i: int| 0 <= i < wr.ops.len() implies !used.contains(
                        #[trigger] wr.ops[i].operation_id,
                    ) by {
                        if i == w.ops.len() {
                            if used.contains(op.operation_id) {
                                let k = choose|k: int|
                                    0 <= k < used.len() && used[k] == op.operation_id;
                                assert(w.used[k] == op.operation_id);
                            }
                        } else {
                            assert(wr.ops[i] == w.ops[i]);
                        }
                    }
                },
            },
        }
    }
}

/// Every operation collected from a collection lists the `{name}` segments
/// of its API path as required path parameters.
pub proof fn lemma_walk_lists_path_params(
    items: Seq<JsonV>,
    stack: Seq<Seq<char>>,
    used: Seq<Seq<char>>,
    p: Seq<(Seq<char>, Option<JsonV>)>,
)
    requires
        walk(items, stack, used, p) is Ok,
    ensures
        forall|i: int|
            0 <= i < walk(items, stack, used, p)->Ok_0.ops.len() ==> lists_path_params(
                #[trigger] walk(items, stack, used, p)->Ok_0.ops[i],
            ),
    decreases seq_size(items),
{
    if items.len() > 0 {
        crate::json::lemma_jsize_pos(items.last());
        let prev = items.drop_last();
        lemma_walk_lists_path_params(prev, stack, used, p);
        let w = walk(prev, stack, used, p)->Ok_0;
        let item = items.last();
        let wr = walk(items, stack, used, p)->Ok_0;
        match get_arr(item, "item"@) {
            Some(sub) => {
                lemma_jget_smaller(item, "item"@);
                let name = match get_str(item, "name"@) {
                    Some(n) => n,
                    None => "folder"@,
                };
                lemma_walk_lists_path_params(sub, stack.push(name), w.used, p);
                let w2 = walk(sub, stack.push(name), w.used, p)->Ok_0;
                assert(wr.ops == w.ops + w2.ops);
                assert forall|i: int| 0 <= i < wr.ops.len() implies lists_path_params(
                    #[trigger] wr.ops[i],
                ) by {
                    if i < w.ops.len() {
                        assert(wr.ops[i] == w.ops[i]);
                    } else {
                        assert(wr.ops[i] == w2.ops[i - w.ops.len()]);
                    }
                }
            },
            None => match jget(item, "request"@) {
                None => {
                    assert(wr == w);
                },
                Some(req) => {
                    let (op, cons) = request_op(item, req, stack, w.used, p)->Ok_0;
                    assert(wr.ops == w.ops.push(op));
                    assert(lists_path_params(op)) by {
                        assert forall|j: int|
                            0 <= j < split_char(op.api_path, '/').len() && #[trigger] braced_segment(
                                split_char(op.api_path, '/')[j],
                            ) implies exists|k: int|
                            0 <= k < op.parameters.len() && jget(
                                #[trigger] op.parameters[k],
                                "name"@,
                            ) == Some(JsonV::Str(braced_name(split_char(op.api_path, '/')[j])))
                                && jget(op.parameters[k], "in"@) == Some(JsonV::Str("path"@))
                                && jget(op.parameters[k], "required"@) == Some(JsonV::Bool(true)) by {
                            lemma_path_segments_are_parameters(item, req, stack, w.used, p, op, cons, j);
                        }
                    }
                    assert forall|i: int| 0 <= i < wr.ops.len() implies lists_path_params(
                        #[trigger] wr.ops[i],
                    ) by {
                        if i < w.ops.len() {
                            assert(wr.ops[i] == w.ops[i]);
                        }
                    }
                },
            },
        }
    }
}

proof fn lemma_obj_insert_new_len(e: Seq<(Seq<char>, JsonV)>, k: Seq<char>, v: JsonV)
    requires
        obj_get(e, k) is None,
    ensures
        obj_insert(e, k, v).len() == e.len() + 1,
    decreases e.len(),
{
    if e.len() > 0 && e[0].0 != k && !crate::json::key_lt(k, e[0].0) {
        lemma_obj_insert_new_len(e.drop_first(), k, v);
    }
}

proof fn lemma_obj_insert_keys(e: Seq<(Seq<char>, JsonV)>, k: Seq<char>, v: JsonV, k2: Seq<char>)
    ensures
        obj_get(obj_insert(e, k, v), k2) is Some ==> k2 == k || obj_get(e, k2) is Some,
{
    crate::json::lemma_obj_insert_get(e, k, v, k2);
}

/// The paths of requests with distinct identifiers: one path per request,
/// each holding exactly that request's operation.
pub proof fn lemma_paths_of_distinct(ops: Seq<CollectedOpV>)
    requires
        distinct(op_ids(ops)),
    ensures
        paths_of(ops) is Ok,
        paths_of(ops)->Ok_0.len() == ops.len(),
        forall|j: int|
            0 <= j < ops.len() ==> obj_get(paths_of(ops)->Ok_0, #[trigger] internal_path(ops[j]))
                == Some(
                JsonV::Object(ins(Seq::empty(), lowercase_str(ops[j].method), method_object(ops[j]))),
            ),
        forall|k: Seq<char>|
            #[trigger] obj_get(paths_of(ops)->Ok_0, k) is Some ==> exists|j: int|
                0 <= j < ops.len() && k == internal_path(ops[j]),
    decreases ops.len(),
{
    if ops.len() > 0 {
        let prev = ops.drop_last();
        assert(distinct(op_ids(prev))) by {
            assert forall|i: int, j: int| 0 <= i < j < op_ids(prev).len() implies #[trigger] op_ids(
                prev,
            )[i] != #[trigger] op_ids(prev)[j] by {
                assert(op_ids(prev)[i] == op_ids(ops)[i] && op_ids(prev)[j] == op_ids(ops)[j]);
            }
        }
        lemma_paths_of_distinct(prev);
        let paths = paths_of(prev)->Ok_0;
        let op = ops.last();
        let ip = internal_path(op);
        assert(obj_get(paths, ip) is None) by {
            if obj_get(paths, ip) is Some {
                let j = choose|j: int| 0 <= j < prev.len() && ip == internal_path(prev[j]);
                let a = internal_path(prev[j]);
                assert(a.subrange(postman_prefix().len() as int, a.len() as int) =~= prev[j].operation_id);
                assert(ip.subrange(postman_prefix().len() as int, ip.len() as int) =~= op.operation_id);
                assert(op_ids(ops)[j] == op_ids(ops)[ops.len() - 1]);
            }
        }
        let v = JsonV::Object(ins(Seq::empty(), lowercase_str(op.method), method_object(op)));
        lemma_obj_insert_new_len(paths, ip, v);
        let np = paths_of(ops)->Ok_0;
        assert(np == ins(paths, ip, v));
        assert forall|j: int| 0 <= j < ops.len() implies obj_get(np, #[trigger] internal_path(ops[j]))
            == Some(
            JsonV::Object(ins(Seq::empty(), lowercase_str(ops[j].method), method_object(ops[j]))),
        ) by {
            crate::json::lemma_obj_insert_get(paths, ip, v, internal_path(ops[j]));
            if j < ops.len() - 1 {
                assert(ops[j] == prev[j]);
                assert(obj_get(paths, internal_path(prev[j])) is Some);
                if internal_path(prev[j]) == ip {
                    assert(false);
                }
            }
        }
        assert forall|k: Seq<char>| #[trigger] obj_get(np, k) is Some implies exists|j: int|
            0 <= j < ops.len() && k == internal_path(ops[j]) by {
            lemma_obj_insert_keys(paths, ip, v, k);
            if k == ip {
                assert(k == internal_path(ops[ops.len() - 1]));
            } else {
                let j = choose|j: int| 0 <= j < prev.len() && k == internal_path(prev[j]);
                assert(ops[j] == prev[j]);
            }
        }
    } else {
    }
}

/// Each request of a collection becomes its own internal path: the paths
/// object has exactly one entry per collected request, and the entry of each
/// request's internal path holds that request's operation under its method.
pub proof fn lemma_requests_get_own_paths(col: JsonV, p: Seq<(Seq<char>, Option<JsonV>)>)
    requires
        get_arr(col, "item"@) is Some,
        walk(get_arr(col, "item"@)->Some_0, Seq::empty(), Seq::empty(), p) is Ok,
    ensures
        ({
            let ops = walk(get_arr(col, "item"@)->Some_0, Seq::empty(), Seq::empty(), p)->Ok_0.ops;
            &&& distinct(op_ids(ops))
            &&& paths_of(ops) is Ok
            &&& paths_of(ops)->Ok_0.len() == ops.len()
            &&& forall|j: int|
                0 <= j < ops.len() ==> obj_get(paths_of(ops)->Ok_0, #[trigger] internal_path(ops[j]))
                    == Some(
                    JsonV::Object(
                        ins(Seq::empty(), lowercase_str(ops[j].method), method_object(ops[j])),
                    ),
                )
        }),
{
    let items = get_arr(col, "item"@)->Some_0;
    lemma_walk_ids(items, Seq::empty(), Seq::empty(), p);
    let ops = walk(items, Seq::empty(), Seq::empty(), p)->Ok_0.ops;
    lemma_paths_of_distinct(ops);
}

proof fn lemma_paths_keys(ops: Seq<CollectedOpV>, ip: Seq<char>)
    requires
        paths_of(ops) is Ok,
        obj_get(paths_of(ops)->Ok_0, ip) is Some,
    ensures
        exists|j: int| 0 <= j < ops.len() && ip == #[trigger] internal_path(ops[j]),
    decreases ops.len(),
{
    let d = ops.drop_last();
    let paths = paths_of(d)->Ok_0;
    let op = ops.last();
    let key = internal_path(op);
    let mk = lowercase_str(op.method);
    let v = match obj_get(paths, key) {
        Some(JsonV::Object(pe)) => JsonV::Object(ins(pe, mk, method_object(op))),
        _ => JsonV::Object(ins(Seq::empty(), mk, method_object(op))),
    };
    lemma_obj_insert_keys(paths, key, v, ip);
    if ip == key {
        assert(ip == internal_path(ops[ops.len() - 1]));
    } else {
        lemma_paths_keys(d, ip);
        let j = choose|j: int| 0 <= j < d.len() && ip == #[trigger] internal_path(d[j]);
        assert(d[j] == ops[j]);
    }
}

proof fn lemma_method_object_fields(op: CollectedOpV)
    ensures
        jget(method_object(op), "x-connector-api-path"@) == Some(JsonV::Str(op.api_path)),
        jget(method_object(op), "parameters"@) == Some(JsonV::Array(op.parameters)),
{
    reveal_strlit("x-connector-api-path");
    reveal_strlit("parameters");
    reveal_strlit("requestBody");
    reveal_strlit("responses");
    assert("x-connector-api-path"@.len() != "parameters"@.len());
    assert("x-connector-api-path"@.len() != "requestBody"@.len());
    assert("x-connector-api-path"@.len() != "responses"@.len());
    assert("parameters"@.len() != "requestBody"@.len());
    assert("parameters"@.len() != "responses"@.len());
    let e1 = ins(
        ins(Seq::empty(), "operationId"@, JsonV::Str(op.operation_id)),
        "summary"@,
        JsonV::Str(op.display_name),
    );
    let e2 = match op.description {
        Some(d) => if d.len() > 0 {
            ins(e1, "description"@, JsonV::Str(d))
        } else {
            e1
        },
        None => e1,
    };
    let ea = ins(e2, "x-connector-api-path"@, JsonV::Str(op.api_path));
    let e3 = ins(ea, "parameters"@, JsonV::Array(op.parameters));
    let e4 = if has_request_body(op.request_body_schema) {
        ins(e3, "requestBody"@, request_body_obj(op.request_body_schema))
    } else {
        e3
    };
    let ap = "x-connector-api-path"@;
    let pk = "parameters"@;
    crate::json::lemma_obj_insert_get(e2, ap, JsonV::Str(op.api_path), ap);
    crate::json::lemma_obj_insert_get(ea, pk, JsonV::Array(op.parameters), ap);
    crate::json::lemma_obj_insert_get(ea, pk, JsonV::Array(op.parameters), pk);
    let rb = request_body_obj(op.request_body_schema);
    crate::json::lemma_obj_insert_get(e3, "requestBody"@, rb, ap);
    crate::json::lemma_obj_insert_get(e3, "requestBody"@, rb, pk);
    crate::json::lemma_obj_insert_get(e4, "responses"@, responses_obj(), ap);
    crate::json::lemma_obj_insert_get(e4, "responses"@, responses_obj(), pk);
}

/// In the OpenAPI document converted from a Postman collection, every
/// operation lists each segment of its `x-connector-api-path` written
/// `{name}` as a parameter named `name`, located in the path and required.
pub proof fn lemma_document_lists_path_params(
    col: JsonV,
    p: Seq<(Seq<char>, Option<JsonV>)>,
    doc: JsonV,
    paths: Seq<(Seq<char>, JsonV)>,
    ip: Seq<char>,
    pe: Seq<(Seq<char>, JsonV)>,
    m: Seq<char>,
    mo: JsonV,
    ap: Seq<char>,
    ps: Seq<JsonV>,
    j: int,
)
    requires
        to_openapi(col, p) == Ok::<JsonV, PostmanErrV>(doc),
        jget(doc, "paths"@) == Some(JsonV::Object(paths)),
        obj_get(paths, ip) == Some(JsonV::Object(pe)),
        obj_get(pe, m) == Some(mo),
        jget(mo, "x-connector-api-path"@) == Some(JsonV::Str(ap)),
        jget(mo, "parameters"@) == Some(JsonV::Array(ps)),
        0 <= j < split_char(ap, '/').len(),
        braced_segment(split_char(ap, '/')[j]),
    ensures
        exists|k: int|
            0 <= k < ps.len() && jget(#[trigger] ps[k], "name"@) == Some(
                JsonV::Str(braced_name(split_char(ap, '/')[j])),
            ) && jget(ps[k], "in"@) == Some(JsonV::Str("path"@)) && jget(ps[k], "required"@) == Some(
                JsonV::Bool(true),
            ),
{
    reveal_strlit("openapi");
    reveal_strlit("info");
    reveal_strlit("paths");
    assert("openapi"@.len() != "paths"@.len() && "info"@.len() != "paths"@.len());
    let items = get_arr(col, "item"@)->Some_0;
    let w = walk(items, Seq::empty(), Seq::empty(), p)->Ok_0;
    let ops = w.ops;
    let paths0 = paths_of(ops)->Ok_0;
    let info = JsonV::Object(
        ins(
            ins(Seq::empty(), "title"@, JsonV::Str(collection_title(col))),
            "version"@,
            JsonV::Str("1.0.0"@),
        ),
    );
    let d2 = ins(ins(Seq::empty(), "openapi"@, JsonV::Str("3.0.0"@)), "info"@, info);
    crate::json::lemma_obj_insert_get(d2, "paths"@, JsonV::Object(paths0), "paths"@);
    assert(paths == paths0);
    lemma_paths_keys(ops, ip);
    let jj = choose|jj: int| 0 <= jj < ops.len() && ip == #[trigger] internal_path(ops[jj]);
    lemma_requests_get_own_paths(col, p);
    let op = ops[jj];
    let lm = lowercase_str(op.method);
    assert(obj_get(paths, internal_path(op)) == Some(
        JsonV::Object(ins(Seq::empty(), lm, method_object(op))),
    ));
    assert(pe == ins(Seq::empty(), lm, method_object(op)));
    assert(pe =~= seq![(lm, method_object(op))]);
    assert(pe.drop_first() =~= Seq::<(Seq<char>, JsonV)>::empty());
    assert(obj_get(pe.drop_first(), m) is None);
    assert(pe[0].0 == m);
    assert(mo == method_object(op));
    lemma_method_object_fields(op);
    assert(ap == op.api_path && ps == op.parameters);
    lemma_walk_lists_path_params(items, Seq::empty(), Seq::empty(), p);
    assert(lists_path_params(ops[jj]));
    assert(braced_segment(split_char(op.api_path, '/')[j]));
}

// ---------------------------------------------------------------------------
// API descriptions
// ---------------------------------------------------------------------------

/// Why an API description could not be read. The messages of JSON and YAML
/// syntax errors are carried as text.
#[derive(Debug)]
pub enum ApiSpecError {
    Json(String),
    Yaml(String),
    Postman(PostmanConversionError),
    UnrecognizedJson,
}

/// Whether a description is read as JSON (its first non-whitespace character
/// opens an object or an array) rather than as YAML.
pub open spec fn is_json_text(content: Seq<char>) -> bool {
    starts_with(crate::text::trim_ws_start(content), seq!['{'])
        || starts_with(crate::text::trim_ws_start(content), seq!['['])
}

/// Whether a description is read as JSON rather than as YAML.
pub fn looks_like_json(content: &str) -> (r: bool)
    ensures
        r == is_json_text(content@),
{
    let c = chars_of(content);
    let t = crate::text::trim_ws_start_exec(&c);
    let open = single('{');
    let bracket = single('[');
    crate::text::starts_with_exec(&t, &open) || crate::text::starts_with_exec(&t, &bracket)
}

/// Whether a document declares itself OpenAPI or Swagger.
pub open spec fn is_openapi_doc(v: JsonV) -> bool {
    jget(v, "openapi"@) is Some || jget(v, "swagger"@) is Some
}

/// The API description made of a parsed document: a Postman collection is
/// converted; a JSON document must otherwise be OpenAPI or Swagger; a YAML
/// document is taken as it is.
pub open spec fn api_spec_of(v: JsonV, from_json: bool, p: Seq<(Seq<char>, Option<JsonV>)>) -> Result<
    JsonV,
    Option<PostmanErrV>,
> {
    if is_collection(v) {
        match to_openapi(v, p) {
            Ok(d) => Ok(d),
            Err(e) => Err(Some(e)),
        }
    } else if from_json && !is_openapi_doc(v) {
        Err(None)
    } else {
        Ok(v)
    }
}

/// Accept a parsed API description: OpenAPI / Swagger, or a Postman
/// collection (converted). `from_json` says whether it was read as JSON;
/// `parsed` holds the parse outcomes of a collection's raw bodies.
pub fn api_spec_from_value(v: Json, from_json: bool, parsed: &Vec<(String, Option<Json>)>) -> (r:
    Result<Json, ApiSpecError>)
    ensures
        match api_spec_of(v@, from_json, parsed_view(parsed@)) {
            Ok(d) => r matches Ok(j) && j@ == d,
            Err(Some(e)) => r matches Err(ApiSpecError::Postman(e2)) && e2@ == e,
            Err(None) => r matches Err(ApiSpecError::UnrecognizedJson),
        },
{
    if is_postman_collection(&v) {
        return match postman_collection_to_openapi(&v, parsed) {
            Ok(d) => Ok(d),
            Err(e) => Err(ApiSpecError::Postman(e)),
        };
    }
    if from_json && !(v.get("openapi").is_some() || v.get("swagger").is_some()) {
        return Err(ApiSpecError::UnrecognizedJson);
    }
    Ok(v)
}

/// The message of a conversion error.
pub open spec fn postman_error_message(e: PostmanErrV) -> Seq<char> {
    match e {
        PostmanErrV::MissingItemArray => "Postman collection has no item array"@,
        PostmanErrV::NoRequests => "Postman collection contains no HTTP requests"@,
        PostmanErrV::MissingUrl => "Postman request has no url"@,
        PostmanErrV::InvalidUrl => "Postman request url has invalid shape"@,
        PostmanErrV::InvalidRequest(s) => "Postman request: "@ + s,
        PostmanErrV::EmptyRequestArray => "Postman request array is empty"@,
        PostmanErrV::InvalidStructure(s) => "Invalid Postman structure: "@ + s,
    }
}

impl PostmanConversionError {
    /// The message of this error, as it is shown to the user.
    pub fn to_message(&self) -> (r: String)
        ensures
            r@ == postman_error_message(self@),
    {
        match self {
            PostmanConversionError::MissingItemArray => "Postman collection has no item array".to_owned(),
            PostmanConversionError::NoRequests => "Postman collection contains no HTTP requests".to_owned(),
            PostmanConversionError::MissingUrl => "Postman request has no url".to_owned(),
            PostmanConversionError::InvalidUrl => "Postman request url has invalid shape".to_owned(),
            PostmanConversionError::InvalidRequest(s) => crate::text::concat_strs(
                "Postman request: ",
                s.as_str(),
            ),
            PostmanConversionError::EmptyRequestArray => "Postman request array is empty".to_owned(),
            PostmanConversionError::InvalidStructure(s) => crate::text::concat_strs(
                "Invalid Postman structure: ",
                s.as_str(),
            ),
        }
    }
}

/// The message of a description error: a JSON or YAML syntax error with its
/// kind in front, a conversion error's own message, or the message for JSON
/// that is no known kind of description.
pub open spec fn api_spec_error_message(e: ApiSpecError) -> Seq<char> {
    match e {
        ApiSpecError::Json(m) => "JSON: "@ + m@,
        ApiSpecError::Yaml(m) => "YAML: "@ + m@,
        ApiSpecError::Postman(p) => postman_error_message(p@),
        ApiSpecError::UnrecognizedJson => "JSON is neither OpenAPI/Swagger nor a Postman collection (missing openapi/swagger/info+item)"@,
    }
}

impl ApiSpecError {
    /// The message of this error, as it is shown to the user.
    pub fn to_message(&self) -> (r: String)
        ensures
            r@ == api_spec_error_message(*self),
    {
        match self {
            ApiSpecError::Json(m) => crate::text::concat_strs("JSON: ", m.as_str()),
            ApiSpecError::Yaml(m) => crate::text::concat_strs("YAML: ", m.as_str()),
            ApiSpecError::Postman(p) => p.to_message(),
            ApiSpecError::UnrecognizedJson => "JSON is neither OpenAPI/Swagger nor a Postman collection (missing openapi/swagger/info+item)".to_owned(),
        }
    }
}

/// An OpenAPI or Swagger document is taken as it is, whether it was read as
/// JSON or as YAML.
pub proof fn lemma_openapi_documents_pass_through(
    v: JsonV,
    from_json: bool,
    p: Seq<(Seq<char>, Option<JsonV>)>,
)
    requires
        is_openapi_doc(v),
    ensures
        api_spec_of(v, from_json, p) == Ok::<JsonV, Option<PostmanErrV>>(v),
{
}

/// The model of an [`ApiSpecError`].
pub enum ApiSpecErrV {
    Json(Seq<char>),
    Yaml(Seq<char>),
    Postman(PostmanErrV),
    UnrecognizedJson,
}

impl View for ApiSpecError {
    type V = ApiSpecErrV;

    open spec fn view(&self) -> ApiSpecErrV {
        match self {
            ApiSpecError::Json(m) => ApiSpecErrV::Json(m@),
            ApiSpecError::Yaml(m) => ApiSpecErrV::Yaml(m@),
            ApiSpecError::Postman(p) => ApiSpecErrV::Postman(p@),
            ApiSpecError::UnrecognizedJson => ApiSpecErrV::UnrecognizedJson,
        }
    }
}

/// The parse outcomes of the raw bodies that converting `v` as a Postman
/// collection reads (none where `v` has no walkable items).
pub open spec fn body_parse_table(v: JsonV) -> Seq<(Seq<char>, Option<JsonV>)> {
    match body_texts(v) {
        Ok(t) => parse_table(t),
        Err(_) => Seq::empty(),
    }
}

/// The parse outcome of each raw body that converting `collection` reads.
pub fn postman_body_parse_table(collection: &Json) -> (r: Vec<(String, Option<Json>)>)
    ensures
        parsed_view(r@) == body_parse_table(collection@),
{
    match postman_body_texts(collection) {
        Ok(texts) => parse_texts(&texts),
        Err(_) => {
            let t: Vec<(String, Option<Json>)> = Vec::new();
            assert(parsed_view(t@) =~= Seq::<(Seq<char>, Option<JsonV>)>::empty());
            t
        },
    }
}

/// A parsed document accepted as an API description.
pub open spec fn accepted_spec(v: JsonV, from_json: bool) -> Result<JsonV, ApiSpecErrV> {
    match api_spec_of(v, from_json, body_parse_table(v)) {
        Ok(d) => Ok(d),
        Err(Some(e)) => Err(ApiSpecErrV::Postman(e)),
        Err(None) => Err(ApiSpecErrV::UnrecognizedJson),
    }
}

/// What reading an API description gives: text that opens with `{` or `[`
/// is read as JSON, anything else as YAML; a Postman collection is
/// converted; JSON that is neither OpenAPI/Swagger nor a collection is
/// refused.
pub open spec fn api_spec_text(content: Seq<char>) -> Result<JsonV, ApiSpecErrV> {
    if is_json_text(content) {
        match json_text_value(content) {
            None => Err(ApiSpecErrV::Json(json_text_error(content))),
            Some(v) => accepted_spec(v, true),
        }
    } else {
        match yaml_text_value(content) {
            None => if yaml_text_error(content).0 {
                Err(ApiSpecErrV::Yaml(yaml_text_error(content).1))
            } else {
                Err(ApiSpecErrV::Json(yaml_text_error(content).1))
            },
            Some(v) => accepted_spec(v, false),
        }
    }
}

/// Parse an API description: OpenAPI / Swagger (JSON or YAML) as it is, or a
/// Postman collection converted to OpenAPI.
pub fn parse_api_spec(content: &str) -> (r: Result<Json, ApiSpecError>)
    ensures
        match api_spec_text(content@) {
            Ok(d) => r matches Ok(j) && j@ == d,
            Err(e) => r matches Err(re) && re@ == e,
        },
{
    let from_json = looks_like_json(content);
    let v = if from_json {
        match parse_json_text(content) {
            Ok(v) => v,
            Err(m) => {
                return Err(ApiSpecError::Json(m));
            },
        }
    } else {
        match parse_yaml_text(content) {
            Ok(v) => v,
            Err((true, m)) => {
                return Err(ApiSpecError::Yaml(m));
            },
            Err((false, m)) => {
                return Err(ApiSpecError::Json(m));
            },
        }
    };
    let parsed = postman_body_parse_table(&v);
    api_spec_from_value(v, from_json, &parsed)
}

} // verus!
