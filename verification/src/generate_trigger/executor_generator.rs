//! Executor code of a trigger: the polling HTTP call and the parameter
//! helpers, rendered through the trigger template.
use vstd::prelude::*;

use super::error::{GenerateTriggerError, GenerateTriggerErrorV};
use super::template_manager::TemplateManager;
use super::utils::{
    extract_path_parameter_names, generate_path_parameter_extraction,
    generate_query_parameter_building, path_extraction_text, path_names_text, query_building_text,
};
use crate::code_text::{
    trigger_get_path_code, trigger_get_path_query_code, trigger_get_path_query_text,
    trigger_get_path_text, trigger_get_plain_code, trigger_get_plain_text, trigger_get_query_code,
    trigger_get_query_text, trigger_unsupported_method_code, trigger_unsupported_method_text,
};
use crate::generate_action::executor_generator::{
    any_named_query_param, any_query_param, is_query_param, resolve_params, resolve_param,
};
use crate::generate_action::schema_generator::{operation_object, resolve_ref, resolve_ref_spec};
use crate::generate_action::template_manager::render_of;
use crate::json::{get_arr, jget, obj_lookup, values_view, Json, JsonV};
use crate::templates::vars_view;
use crate::text::{
    ascii_upper, is_ascii_text,
    chars_of, contains_char, contains_exec, contains_seq, str_eq, str_to_uppercase, uppercase_str,
    has_text, lemma_has_text,
};

verus! {

/// Resolve a `$ref` reference for a parameter.
pub fn resolve_parameter_ref(schema: &Json, ref_path: &str) -> (r: Option<Json>)
    ensures
        match resolve_ref_spec(schema@, ref_path@) {
            Some(v) => r matches Some(j) && j@ == v,
            None => r is None,
        },
{
    resolve_ref(schema, ref_path)
}

fn resolve_params_exec(schema: &Json, raw: &Vec<Json>) -> (r: Vec<Json>)
    ensures
        values_view(r@) == resolve_params(schema@, values_view(raw@)),
{
    let mut out: Vec<Json> = Vec::new();
    let mut i: usize = 0;
    while i < raw.len()
        invariant
            i <= raw.len(),
            out@.len() == i,
            forall|j: int| 0 <= j < i ==> out@[j]@ == resolve_param(schema@, raw@[j]@),
        decreases raw.len() - i,
    {
        let p = &raw[i];
        let resolved = match p {
            Json::Object(o) => {
                proof {
                    crate::json::lemma_object_view(*o);
                }
                match obj_lookup(o, "$ref") {
                    Some(Json::String(r)) => match resolve_parameter_ref(schema, r.as_str()) {
                        Some(x) => x,
                        None => p.deep_clone(),
                    },
                    _ => p.deep_clone(),
                }
            },
            _ => p.deep_clone(),
        };
        out.push(resolved);
        i = i + 1;
    }
    assert(values_view(out@) =~= resolve_params(schema@, values_view(raw@)));
    out
}

fn any_query_param_exec(params: &Vec<Json>, need_name: bool) -> (r: bool)
    ensures
        need_name ==> r == any_named_query_param(values_view(params@)),
        !need_name ==> r == any_query_param(values_view(params@)),
{
    let ghost pv = values_view(params@);
    let mut i: usize = 0;
    while i < params.len()
        invariant
            i <= params.len(),
            pv == values_view(params@),
            need_name ==> forall|j: int|
                0 <= j < i ==> !#[trigger] crate::generate_action::executor_generator::is_named_query_param(pv[j]),
            !need_name ==> forall|j: int|
                0 <= j < i ==> !#[trigger] crate::generate_action::executor_generator::is_query_param(pv[j]),
        decreases params.len() - i,
    {
        let p = &params[i];
        let is_query = match p.get("in") {
            Some(Json::String(place)) => str_eq(place.as_str(), "query"),
            _ => false,
        };
        let named = match p.get("name") {
            Some(_) => true,
            None => false,
        };
        assert(pv[i as int] == p@);
        if is_query && (named || !need_name) {
            assert(crate::generate_action::executor_generator::is_query_param(pv[i as int]));
            assert(named ==> crate::generate_action::executor_generator::is_named_query_param(
                pv[i as int],
            ));
            return true;
        }
        i = i + 1;
    }
    false
}

/// The polling call for an uppercase method: GET builds the endpoint (with
/// path and query parameters where there are any); other methods are refused
/// in the generated code.
pub open spec fn trigger_http_call_text(
    http_method: Seq<char>,
    api_path: Seq<char>,
    has_query: bool,
) -> Seq<char> {
    let has_path = api_path.contains('{');
    if http_method == "GET"@ {
        if has_path && has_query {
            trigger_get_path_query_text(api_path)
        } else if has_path {
            trigger_get_path_text(api_path)
        } else if has_query {
            trigger_get_query_text(api_path)
        } else {
            trigger_get_plain_text(api_path)
        }
    } else {
        trigger_unsupported_method_text(http_method)
    }
}

/// The polling call code for the uppercase method `http_method`.
pub fn trigger_http_call_for(http_method: &str, api_path: &str, has_query_params: bool) -> (r:
    String)
    ensures
        r@ == trigger_http_call_text(http_method@, api_path@, has_query_params),
{
    let has_path_params = contains_char(&chars_of(api_path), '{');
    if str_eq(http_method, "GET") {
        if has_path_params && has_query_params {
            trigger_get_path_query_code(api_path)
        } else if has_path_params {
            trigger_get_path_code(api_path)
        } else if has_query_params {
            trigger_get_query_code(api_path)
        } else {
            trigger_get_plain_code(api_path)
        }
    } else {
        trigger_unsupported_method_code(http_method)
    }
}

/// Generate HTTP call code for triggers.
pub fn generate_http_call(method: &str, api_path: &str, parameters: &Vec<Json>) -> (r: String)
    ensures
        r@ == trigger_http_call_text(
            uppercase_str(method@),
            api_path@,
            any_query_param(values_view(parameters@)),
        ),
        is_ascii_text(method@) ==> uppercase_str(method@) == method@.map_values(|c: char| ascii_upper(c)),
{
    let http_method = str_to_uppercase(method);
    let has_query_params = any_query_param_exec(parameters, false);
    trigger_http_call_for(http_method.as_str(), api_path, has_query_params)
}

/// When an operation has a query parameter, the trigger's GET polling call
/// builds the query string with `build_query_parameters(&store_data)` and
/// appends it to the endpoint (`format!("{}?{}", endpoint, query_params)`),
/// whatever the path; and the call's text holds that path.
pub proof fn lemma_trigger_query_is_sent(api_path: Seq<char>, params: Seq<JsonV>, i: int)
    requires
        0 <= i < params.len(),
        jget(params[i], "in"@) == Some(JsonV::Str("query"@)),
    ensures
        has_text(
            trigger_http_call_text("GET"@, api_path, any_query_param(params)),
            "build_query_parameters(&store_data)"@,
        ),
        has_text(
            trigger_http_call_text("GET"@, api_path, any_query_param(params)),
            "format!(\"{}?{}\", endpoint, query_params)"@,
        ),
        has_text(trigger_http_call_text("GET"@, api_path, any_query_param(params)), api_path),
{
    lemma_has_text(api_path);
    assert(is_query_param(params[i]));
    assert(any_query_param(params));
    lemma_has_text("build_query_parameters(&store_data)"@);
    lemma_has_text("format!(\"{}?{}\", endpoint, query_params)"@);
}

/// The trigger executor rendered from its template: the HTTP call, and the
/// path and query helpers embedded where there are such parameters.
pub open spec fn trigger_executor_of(
    tm: Map<Seq<char>, Seq<char>>,
    http_call: Seq<char>,
    has_path: bool,
    params: Seq<JsonV>,
) -> Result<Seq<char>, Seq<char>> {
    render_of(
        tm,
        "trigger_executor"@,
        seq![
            ("HTTP_CALL"@, http_call),
            (
                "PATH_PARAMETER_EXTRACTION"@,
                if has_path {
                    path_extraction_text(params)
                } else {
                    Seq::empty()
                },
            ),
            (
                "QUERY_PARAMETER_BUILDING"@,
                if any_named_query_param(params) {
                    query_building_text(params)
                } else {
                    Seq::empty()
                },
            ),
        ],
    )
}

/// Generate trigger executor code.
pub fn generate_trigger_executor_code(
    templates: &TemplateManager,
    http_call: &str,
    has_path_params: bool,
    parameters: &Vec<Json>,
) -> (r: Result<String, GenerateTriggerError>)
    ensures
        match trigger_executor_of(templates@, http_call@, has_path_params, values_view(parameters@)) {
            Ok(t) => r matches Ok(s) && s@ == t,
            Err(m) => r matches Err(GenerateTriggerError::TemplateError(e)) && e@ == m,
        },
{
    let path_parameter_functions = if has_path_params {
        generate_path_parameter_extraction(parameters)
    } else {
        String::new()
    };
    let has_query_params = any_query_param_exec(parameters, true);
    let query_parameter_functions = if has_query_params {
        generate_query_parameter_building(parameters)
    } else {
        String::new()
    };
    let ghost pf = path_parameter_functions@;
    let ghost qf = query_parameter_functions@;
    let mut vars: Vec<(String, String)> = Vec::new();
    vars.push(("HTTP_CALL".to_owned(), http_call.to_owned()));
    vars.push(("PATH_PARAMETER_EXTRACTION".to_owned(), path_parameter_functions));
    vars.push(("QUERY_PARAMETER_BUILDING".to_owned(), query_parameter_functions));
    assert(vars_view(vars@) =~= seq![
        ("HTTP_CALL"@, http_call@),
        ("PATH_PARAMETER_EXTRACTION"@, pf),
        ("QUERY_PARAMETER_BUILDING"@, qf),
    ]);
    templates.render("trigger_executor", &vars)
}

/// The executor code of the trigger at `schema_path` and `method`, or the
/// error: a schema error where the operation is missing, else a template
/// error from rendering.
pub open spec fn trigger_code_of(
    tm: Map<Seq<char>, Seq<char>>,
    schema: JsonV,
    schema_path: Seq<char>,
    method: Seq<char>,
    api_path: Seq<char>,
) -> Result<Seq<char>, GenerateTriggerErrorV> {
    match operation_object(schema, schema_path, method) {
        Err(m) => Err(GenerateTriggerErrorV::SchemaError(m)),
        Ok(op) => {
            let params = resolve_params(
                schema,
                match get_arr(op, "parameters"@) {
                    Some(a) => a,
                    None => Seq::empty(),
                },
            );
            let has_path = !contains_seq(path_names_text(params), "__none__"@);
            let call = trigger_http_call_text(uppercase_str(method), api_path, any_query_param(params));
            match trigger_executor_of(tm, call, has_path, params) {
                Ok(t) => Ok(t),
                Err(m) => Err(GenerateTriggerErrorV::TemplateError(m)),
            }
        },
    }
}

/// Generate executor code for a trigger, rendered with the loaded `templates`.
pub fn generate_executor_code(
    templates: &TemplateManager,
    schema: &Json,
    _trigger_name: &str,
    schema_path: &str,
    method: &str,
    api_path: &str,
) -> (r: Result<String, GenerateTriggerError>)
    ensures
        match trigger_code_of(templates@, schema@, schema_path@, method@, api_path@) {
            Ok(t) => r matches Ok(s) && s@ == t,
            Err(e) => r matches Err(re) && re@ == e,
        },
        operation_object(schema@, schema_path@, method@) is Ok && is_ascii_text(method@) ==> (
        uppercase_str(method@) == method@.map_values(|c: char| ascii_upper(c))),
{
    let op = match crate::generate_action::schema_generator::operation_object_exec(
        schema,
        schema_path,
        method,
    ) {
        Ok(op) => op,
        Err(e) => {
            return Err(super::schema_generator::trigger_error_of(e));
        },
    };
    let empty_params: Vec<Json> = Vec::new();
    let raw: &Vec<Json> = match op.get("parameters") {
        Some(Json::Array(a)) => {
            proof {
                crate::json::lemma_array_view(*a);
            }
            a
        },
        _ => &empty_params,
    };
    assert(values_view(empty_params@) =~= Seq::<JsonV>::empty());
    let parameters = resolve_params_exec(schema, raw);
    let path_param_names = extract_path_parameter_names(&parameters);
    let has_path_params = !contains_exec(
        &chars_of(path_param_names.as_str()),
        &chars_of("__none__"),
    );
    let http_call = generate_http_call(method, api_path, &parameters);
    generate_trigger_executor_code(templates, http_call.as_str(), has_path_params, &parameters)
}

} // verus!
