//! Helpers that turn OpenAPI parameters into generated code.
use vstd::prelude::*;

use crate::code_text::{
    path_parameter_extraction_code, path_parameter_extraction_text, query_parameter_line_code,
    query_parameter_line_text,
};
use crate::json::{obj_get, obj_lookup, values_view, Json, JsonV};
use crate::postman_text::join_with;
use crate::text::{append_str, str_eq, string_of};

verus! {

pub use crate::to_snake_case;

/// The name of a parameter object located `loc` (`path` or `query`).
pub open spec fn param_name_in(p: JsonV, loc: Seq<char>) -> Option<Seq<char>> {
    match p {
        JsonV::Object(e) => match (obj_get(e, "in"@), obj_get(e, "name"@)) {
            (Some(JsonV::Str(l)), Some(JsonV::Str(n))) => if l == loc {
                Some(n)
            } else {
                None
            },
            _ => None,
        },
        _ => None,
    }
}

/// The names of the parameters located `loc`, in order.
pub open spec fn names_in(params: Seq<JsonV>, loc: Seq<char>) -> Seq<Seq<char>>
    decreases params.len(),
{
    if params.len() == 0 {
        Seq::empty()
    } else {
        let prev = names_in(params.drop_last(), loc);
        match param_name_in(params.last(), loc) {
            Some(n) => prev.push(n),
            None => prev,
        }
    }
}

/// The name of a parameter located `loc`.
pub fn param_name_in_exec<'a>(p: &'a Json, loc: &str) -> (r: Option<&'a String>)
    ensures
        match param_name_in(p@, loc@) {
            Some(n) => r matches Some(s) && s@ == n,
            None => r is None,
        },
{
    match p {
        Json::Object(e) => {
            proof {
                crate::json::lemma_object_view(*e);
            }
            match (obj_lookup(e, "in"), obj_lookup(e, "name")) {
                (Some(Json::String(l)), Some(Json::String(n))) => if str_eq(l.as_str(), loc) {
                    Some(n)
                } else {
                    None
                },
                _ => None,
            }
        },
        _ => None,
    }
}

/// The names of the parameters located `loc`, in order.
pub fn names_in_exec(params: &Vec<Json>, loc: &str) -> (r: Vec<String>)
    ensures
        crate::openapi::strings_view(r@) == names_in(values_view(params@), loc@),
{
    let ghost pv = values_view(params@);
    let mut out: Vec<String> = Vec::new();
    let mut i: usize = 0;
    assert(pv.take(0) =~= Seq::<JsonV>::empty());
    assert(crate::openapi::strings_view(out@) =~= Seq::<Seq<char>>::empty());
    while i < params.len()
        invariant
            i <= params.len(),
            pv == values_view(params@),
            crate::openapi::strings_view(out@) == names_in(pv.take(i as int), loc@),
        decreases params.len() - i,
    {
        assert(pv.take(i + 1).drop_last() =~= pv.take(i as int));
        assert(pv.take(i + 1).last() == pv[i as int]);
        match param_name_in_exec(&params[i], loc) {
            Some(n) => {
                let ghost o0 = crate::openapi::strings_view(out@);
                out.push(n.clone());
                assert(crate::openapi::strings_view(out@) =~= o0.push(n@));
            },
            None => {},
        }
        i = i + 1;
    }
    assert(pv.take(params.len() as int) =~= pv);
    out
}

/// A name between double quotes.
pub open spec fn quoted(n: Seq<char>) -> Seq<char> {
    seq!['"'] + n + seq!['"']
}

/// The list of path parameter names as generated code: each quoted, joined
/// by ` | `, or `"__none__"` when there is none.
pub open spec fn path_names_text(params: Seq<JsonV>) -> Seq<char> {
    let names = names_in(params, "path"@);
    if names.len() == 0 {
        "\"__none__\""@
    } else {
        join_with(Seq::new(names.len(), |i: int| quoted(names[i])), " | "@)
    }
}

/// Extract path parameter names from parameters.
pub fn extract_path_parameter_names(parameters: &Vec<Json>) -> (r: String)
    ensures
        r@ == path_names_text(values_view(parameters@)),
{
    let names = names_in_exec(parameters, "path");
    let ghost nv = crate::openapi::strings_view(names@);
    if names.len() == 0 {
        return "\"__none__\"".to_owned();
    }
    let ghost qs = Seq::new(nv.len(), |i: int| quoted(nv[i]));
    let mut out: Vec<char> = Vec::new();
    let mut i: usize = 0;
    assert(qs.take(0) =~= Seq::<Seq<char>>::empty());
    while i < names.len()
        invariant
            i <= names.len(),
            nv == crate::openapi::strings_view(names@),
            qs == Seq::new(nv.len(), |k: int| quoted(nv[k])),
            out@ == join_with(qs.take(i as int), " | "@),
        decreases names.len() - i,
    {
        assert(qs.take(i + 1).drop_last() =~= qs.take(i as int));
        assert(qs.take(i + 1).last() == qs[i as int]);
        let ghost o0 = out@;
        if i > 0 {
            append_str(&mut out, " | ");
        }
        let ghost o1 = out@;
        out.push('"');
        append_str(&mut out, names[i].as_str());
        out.push('"');
        assert(out@ =~= o1 + quoted(nv[i as int]));
        i = i + 1;
    }
    assert(qs.take(names.len() as int) =~= qs);
    string_of(&out)
}

/// The pieces of code, one per name, concatenated.
pub open spec fn concat_map(names: Seq<Seq<char>>, f: spec_fn(Seq<char>) -> Seq<char>) -> Seq<char>
    decreases names.len(),
{
    if names.len() == 0 {
        Seq::empty()
    } else {
        concat_map(names.drop_last(), f) + f(names.last())
    }
}

/// The code that reads every path parameter from the store.
pub open spec fn path_extraction_text(params: Seq<JsonV>) -> Seq<char> {
    concat_map(names_in(params, "path"@), |n: Seq<char>| path_parameter_extraction_text(n))
}

/// The code that adds every query parameter from the store.
pub open spec fn query_building_text(params: Seq<JsonV>) -> Seq<char> {
    concat_map(names_in(params, "query"@), |n: Seq<char>| query_parameter_line_text(n))
}

/// Generate path parameter extraction code for triggers (reading `store_data`).
pub fn generate_path_parameter_extraction(parameters: &Vec<Json>) -> (r: String)
    ensures
        r@ == path_extraction_text(values_view(parameters@)),
{
    let names = names_in_exec(parameters, "path");
    let ghost nv = crate::openapi::strings_view(names@);
    let mut out: Vec<char> = Vec::new();
    let mut i: usize = 0;
    assert(nv.take(0) =~= Seq::<Seq<char>>::empty());
    while i < names.len()
        invariant
            i <= names.len(),
            nv == crate::openapi::strings_view(names@),
            out@ == concat_map(nv.take(i as int), |n: Seq<char>| path_parameter_extraction_text(n)),
        decreases names.len() - i,
    {
        assert(nv.take(i + 1).drop_last() =~= nv.take(i as int));
        assert(nv.take(i + 1).last() == nv[i as int]);
        let piece = path_parameter_extraction_code(names[i].as_str());
        append_str(&mut out, piece.as_str());
        i = i + 1;
    }
    assert(nv.take(names.len() as int) =~= nv);
    string_of(&out)
}

/// Generate query parameter building code for triggers (reading `store_data`).
pub fn generate_query_parameter_building(parameters: &Vec<Json>) -> (r: String)
    ensures
        r@ == query_building_text(values_view(parameters@)),
{
    let names = names_in_exec(parameters, "query");
    let ghost nv = crate::openapi::strings_view(names@);
    let mut out: Vec<char> = Vec::new();
    let mut i: usize = 0;
    assert(nv.take(0) =~= Seq::<Seq<char>>::empty());
    while i < names.len()
        invariant
            i <= names.len(),
            nv == crate::openapi::strings_view(names@),
            out@ == concat_map(nv.take(i as int), |n: Seq<char>| query_parameter_line_text(n)),
        decreases names.len() - i,
    {
        assert(nv.take(i + 1).drop_last() =~= nv.take(i as int));
        assert(nv.take(i + 1).last() == nv[i as int]);
        let piece = query_parameter_line_code(names[i].as_str());
        append_str(&mut out, piece.as_str());
        i = i + 1;
    }
    assert(nv.take(names.len() as int) =~= nv);
    string_of(&out)
}

} // verus!
