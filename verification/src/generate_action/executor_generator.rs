//! Executor code of an action: the HTTP call, the request body handling and
//! the parameter helpers, rendered through the action templates.
use vstd::prelude::*;

use super::error::{GenerateActionError, GenerateActionErrorV};
use super::schema_generator::{json_schema_of, operation_object, resolve_ref, resolve_ref_spec};
use super::template_manager::{render_of, TemplateManager};
use crate::code_text::{
    body_with_path_params_code, body_with_path_params_text, body_without_schema_code,
    body_without_schema_text, delete_path_code, delete_path_text, delete_plain_code,
    delete_plain_text, get_path_code, get_path_query_code, get_path_query_text, get_path_text,
    get_plain_code, get_plain_text, get_query_code, get_query_text, patch_path_code,
    patch_path_text, patch_plain_code, patch_plain_text, post_path_code, post_path_text,
    post_plain_code, post_plain_text, put_path_code, put_path_text, put_plain_code, put_plain_text,
    unsupported_method_code, unsupported_method_text,
};
use crate::generate_trigger::utils::{
    extract_path_parameter_names, generate_path_parameter_extraction,
    generate_query_parameter_building, path_extraction_text, path_names_text, query_building_text,
};
use crate::json::{get_arr, get_str, jget, obj_get, obj_lookup, values_view, Json, JsonV};
use crate::postman_text::join_with;
use crate::templates::vars_view;
use crate::text::{
    ascii_lower, ascii_upper, is_ascii_text,
    append_str, chars_of, contains_char, contains_exec, contains_seq, debug_str_text, ends_with,
    split_char, split_char_exec, str_debug, str_eq, str_to_lowercase, str_to_uppercase, string_of,
    trim_char, trim_char_exec, trim_ws, trim_ws_exec, views, lowercase_str, uppercase_str, has_text,
    lemma_has_text,
};
use crate::{snake_case, to_snake_case};

verus! {

// ---------------------------------------------------------------------------
// Parameters
// ---------------------------------------------------------------------------

/// A parameter with its `$ref` replaced by the component it names, where it
/// has a string `$ref` that resolves; otherwise the parameter as it is.
pub open spec fn resolve_param(schema: JsonV, p: JsonV) -> JsonV {
    match p {
        JsonV::Object(o) => match obj_get(o, "$ref"@) {
            Some(JsonV::Str(r)) => match resolve_ref_spec(schema, r) {
                Some(x) => x,
                None => p,
            },
            _ => p,
        },
        _ => p,
    }
}

/// Every parameter resolved as `resolve_param` says.
pub open spec fn resolve_params(schema: JsonV, params: Seq<JsonV>) -> Seq<JsonV> {
    Seq::new(params.len(), |i: int| resolve_param(schema, params[i]))
}

/// Resolve a `$ref` reference for a parameter.
pub fn resolve_parameter_ref(schema: &Json, ref_path: &str) -> (r: Option<Json>)
    ensures
        match resolve_ref_spec(schema@, ref_path@) {
            Some(v) => r matches Some(j) && j@ == v,
            None => r is None,
        },
{
    resolve_ref(schema, ref_path)
}

fn resolve_params_exec(schema: &Json, raw: &Vec<Json>) -> (r: Vec<Json>)
    ensures
        values_view(r@) == resolve_params(schema@, values_view(raw@)),
{
    let mut out: Vec<Json> = Vec::new();
    let mut i: usize = 0;
    while i < raw.len()
        invariant
            i <= raw.len(),
            out@.len() == i,
            forall|j: int| 0 <= j < i ==> out@[j]@ == resolve_param(schema@, raw@[j]@),
        decreases raw.len() - i,
    {
        let p = &raw[i];
        let resolved = match p {
            Json::Object(o) => {
                proof {
                    crate::json::lemma_object_view(*o);
                }
                match obj_lookup(o, "$ref") {
                    Some(Json::String(r)) => match resolve_parameter_ref(schema, r.as_str()) {
                        Some(x) => x,
                        None => p.deep_clone(),
                    },
                    _ => p.deep_clone(),
                }
            },
            _ => p.deep_clone(),
        };
        out.push(resolved);
        i = i + 1;
    }
    assert(values_view(out@) =~= resolve_params(schema@, values_view(raw@)));
    out
}

/// A parameter located in the query (`in` is the string `query`).
pub open spec fn is_query_param(p: JsonV) -> bool {
    get_str(p, "in"@) == Some("query"@)
}

/// A query parameter that has a `name`.
pub open spec fn is_named_query_param(p: JsonV) -> bool {
    is_query_param(p) && jget(p, "name"@) is Some
}

/// Some parameter is located in the query.
pub open spec fn any_query_param(params: Seq<JsonV>) -> bool {
    exists|i: int| 0 <= i < params.len() && #[trigger] is_query_param(params[i])
}

/// Some query parameter has a `name`.
pub open spec fn any_named_query_param(params: Seq<JsonV>) -> bool {
    exists|i: int| 0 <= i < params.len() && #[trigger] is_named_query_param(params[i])
}

fn any_query_param_exec(params: &Vec<Json>, need_name: bool) -> (r: bool)
    ensures
        need_name ==> r == any_named_query_param(values_view(params@)),
        !need_name ==> r == any_query_param(values_view(params@)),
{
    let ghost pv = values_view(params@);
    let mut i: usize = 0;
    while i < params.len()
        invariant
            i <= params.len(),
            pv == values_view(params@),
            need_name ==> forall|j: int| 0 <= j < i ==> !#[trigger] is_named_query_param(pv[j]),
            !need_name ==> forall|j: int| 0 <= j < i ==> !#[trigger] is_query_param(pv[j]),
        decreases params.len() - i,
    {
        let p = &params[i];
        let is_query = match p.get("in") {
            Some(Json::String(place)) => str_eq(place.as_str(), "query"),
            _ => false,
        };
        let named = match p.get("name") {
            Some(_) => true,
            None => false,
        };
        assert(pv[i as int] == p@);
        if is_query && (named || !need_name) {
            assert(is_query_param(pv[i as int]));
            assert(named ==> is_named_query_param(pv[i as int]));
            return true;
        }
        i = i + 1;
    }
    false
}

/// Some parameter is a path parameter: the generated list of path names is
/// not the `__none__` marker.
pub open spec fn has_path_names(params: Seq<JsonV>) -> bool {
    !contains_seq(path_names_text(params), "__none__"@)
}

fn has_path_names_exec(names: &String) -> (r: bool)
    ensures
        r == !contains_seq(names@, "__none__"@),
{
    let nc = chars_of(names.as_str());
    let marker = chars_of("__none__");
    !contains_exec(&nc, &marker)
}

// ---------------------------------------------------------------------------
// Request body handling
// ---------------------------------------------------------------------------

/// The JSON schema of the request body, as written (no `$ref` followed).
pub open spec fn request_body_schema_of(op: JsonV) -> JsonV {
    match jget(op, "requestBody"@) {
        Some(rb) => match json_schema_of(rb) {
            Some(s) => s,
            None => JsonV::Object(Seq::empty()),
        },
        None => JsonV::Object(Seq::empty()),
    }
}

/// The path parameter names as a Rust slice expression: `&[]` for the
/// `"__none__"` marker, else the pieces between commas, trimmed of
/// whitespace and of double quotes, written with `Debug` as a slice.
pub open spec fn path_params_literal(names: Seq<char>) -> Seq<char> {
    if names == "\"__none__\""@ {
        "&[]"@
    } else {
        let parts = split_char(names, ',');
        "&["@ + join_with(
            Seq::new(parts.len(), |i: int| debug_str_text(trim_char(trim_ws(parts[i]), '"'))),
            ", "@,
        ) + "]"@
    }
}

/// The request body handling code: built from the input when the body schema
/// is a non-empty object, else no body.
pub open spec fn body_handling_text(body_schema: JsonV, names: Seq<char>) -> Seq<char> {
    match body_schema {
        JsonV::Object(e) => if e.len() > 0 {
            body_with_path_params_text(path_params_literal(names))
        } else {
            body_without_schema_text()
        },
        _ => body_without_schema_text(),
    }
}

fn path_params_literal_exec(names: &str) -> (r: String)
    ensures
        r@ == path_params_literal(names@),
{
    if str_eq(names, "\"__none__\"") {
        return "&[]".to_owned();
    }
    let parts = split_char_exec(&chars_of(names), ',');
    let ghost pv = views(parts@);
    let ghost items = Seq::new(pv.len(), |i: int| debug_str_text(trim_char(trim_ws(pv[i]), '"')));
    let mut out: Vec<char> = Vec::new();
    let mut i: usize = 0;
    assert(items.take(0) =~= Seq::<Seq<char>>::empty());
    while i < parts.len()
        invariant
            i <= parts.len(),
            pv == views(parts@),
            items == Seq::new(pv.len(), |k: int| debug_str_text(trim_char(trim_ws(pv[k]), '"'))),
            out@ == join_with(items.take(i as int), ", "@),
        decreases parts.len() - i,
    {
        assert(items.take(i + 1).drop_last() =~= items.take(i as int));
        assert(items.take(i + 1).last() == items[i as int]);
        let trimmed = trim_char_exec(&trim_ws_exec(&parts[i]), '"');
        let item = str_debug(string_of(&trimmed).as_str());
        if i > 0 {
            append_str(&mut out, ", ");
        }
        append_str(&mut out, item.as_str());
        i = i + 1;
    }
    assert(items.take(parts.len() as int) =~= items);
    let mut lit = chars_of("&[");
    append_str(&mut lit, string_of(&out).as_str());
    append_str(&mut lit, "]");
    string_of(&lit)
}

/// Generate body handling code.
pub fn generate_body_handling(request_body_schema: &Json, path_param_names: &str) -> (r: String)
    ensures
        r@ == body_handling_text(request_body_schema@, path_param_names@),
{
    match request_body_schema {
        Json::Object(e) => {
            proof {
                crate::json::lemma_object_view(*e);
            }
            if e.len() > 0 {
                body_with_path_params_code(path_params_literal_exec(path_param_names).as_str())
            } else {
                body_without_schema_code()
            }
        },
        _ => body_without_schema_code(),
    }
}

// ---------------------------------------------------------------------------
// The HTTP call
// ---------------------------------------------------------------------------

/// The code of the HTTP call for an uppercase method, and whether it reads
/// `input_data`.
pub open spec fn http_call_text(http_method: Seq<char>, api_path: Seq<char>, has_query: bool) -> (
    Seq<char>,
    bool,
) {
    let has_path = api_path.contains('{');
    if http_method == "GET"@ {
        (
            if has_path && has_query {
                get_path_query_text(api_path)
            } else if has_path {
                get_path_text(api_path)
            } else if has_query {
                get_query_text(api_path)
            } else {
                get_plain_text(api_path)
            },
            has_path || has_query,
        )
    } else if http_method == "POST"@ {
        (if has_path { post_path_text(api_path) } else { post_plain_text(api_path) }, true)
    } else if http_method == "PATCH"@ {
        (if has_path { patch_path_text(api_path) } else { patch_plain_text(api_path) }, true)
    } else if http_method == "PUT"@ {
        (if has_path { put_path_text(api_path) } else { put_plain_text(api_path) }, true)
    } else if http_method == "DELETE"@ {
        (if has_path { delete_path_text(api_path) } else { delete_plain_text(api_path) }, has_path)
    } else {
        (unsupported_method_text(http_method), false)
    }
}

/// The HTTP call code for the uppercase method `http_method`, and whether it
/// reads `input_data`.
pub fn http_call_for(http_method: &str, api_path: &str, has_query_params: bool) -> (r: (
    String,
    bool,
))
    ensures
        (r.0@, r.1) == http_call_text(http_method@, api_path@, has_query_params),
{
    let has_path_params = contains_char(&chars_of(api_path), '{');
    if str_eq(http_method, "GET") {
        let code = if has_path_params && has_query_params {
            get_path_query_code(api_path)
        } else if has_path_params {
            get_path_code(api_path)
        } else if has_query_params {
            get_query_code(api_path)
        } else {
            get_plain_code(api_path)
        };
        (code, has_path_params || has_query_params)
    } else if str_eq(http_method, "POST") {
        (
            if has_path_params {
                post_path_code(api_path)
            } else {
                post_plain_code(api_path)
            },
            true,
        )
    } else if str_eq(http_method, "PATCH") {
        (
            if has_path_params {
                patch_path_code(api_path)
            } else {
                patch_plain_code(api_path)
            },
            true,
        )
    } else if str_eq(http_method, "PUT") {
        (
            if has_path_params {
                put_path_code(api_path)
            } else {
                put_plain_code(api_path)
            },
            true,
        )
    } else if str_eq(http_method, "DELETE") {
        (
            if has_path_params {
                delete_path_code(api_path)
            } else {
                delete_plain_code(api_path)
            },
            has_path_params,
        )
    } else {
        (unsupported_method_code(http_method), false)
    }
}

/// Generate HTTP call code and return whether `input_data` is used.
pub fn generate_http_call(method: &str, api_path: &str, parameters: &Vec<Json>) -> (r: (
    String,
    bool,
))
    ensures
        (r.0@, r.1) == http_call_text(
            uppercase_str(method@),
            api_path@,
            any_query_param(values_view(parameters@)),
        ),
        is_ascii_text(method@) ==> uppercase_str(method@) == method@.map_values(|c: char| ascii_upper(c)),
{
    let http_method = str_to_uppercase(method);
    let has_query_params = any_query_param_exec(parameters, false);
    http_call_for(http_method.as_str(), api_path, has_query_params)
}

proof fn lemma_method_names_differ()
    ensures
        "POST"@ != "GET"@,
        "PATCH"@ != "GET"@,
        "PATCH"@ != "POST"@,
        "PUT"@ != "GET"@,
        "PUT"@ != "POST"@,
        "PUT"@ != "PATCH"@,
        "DELETE"@ != "GET"@,
        "DELETE"@ != "POST"@,
        "DELETE"@ != "PATCH"@,
        "DELETE"@ != "PUT"@,
{
    reveal_strlit("GET");
    reveal_strlit("POST");
    reveal_strlit("PATCH");
    reveal_strlit("PUT");
    reveal_strlit("DELETE");
    assert("PUT"@[0] != "GET"@[0]);
    assert("POST"@.len() != "GET"@.len());
    assert("PATCH"@.len() != "GET"@.len() && "PATCH"@.len() != "POST"@.len());
    assert("PUT"@.len() != "POST"@.len() && "PUT"@.len() != "PATCH"@.len());
    assert("DELETE"@.len() != "GET"@.len() && "DELETE"@.len() != "POST"@.len());
    assert("DELETE"@.len() != "PATCH"@.len() && "DELETE"@.len() != "PUT"@.len());
}

/// The HTTP call generated for each supported method calls the client's
/// method of that name in lowercase, whatever the path and whether there
/// are query parameters: `client.get(` for GET, `client.post(` for POST,
/// `client.patch(` for PATCH, `client.put(` for PUT and `client.delete(` for
/// DELETE; and each call's text holds the API path it calls.
pub proof fn lemma_http_call_uses_its_method(api_path: Seq<char>, has_query: bool)
    ensures
        has_text(http_call_text("GET"@, api_path, has_query).0, "client.get("@),
        has_text(http_call_text("POST"@, api_path, has_query).0, "client.post("@),
        has_text(http_call_text("PATCH"@, api_path, has_query).0, "client.patch("@),
        has_text(http_call_text("PUT"@, api_path, has_query).0, "client.put("@),
        has_text(http_call_text("DELETE"@, api_path, has_query).0, "client.delete("@),
        has_text(http_call_text("GET"@, api_path, has_query).0, api_path),
        has_text(http_call_text("POST"@, api_path, has_query).0, api_path),
        has_text(http_call_text("PATCH"@, api_path, has_query).0, api_path),
        has_text(http_call_text("PUT"@, api_path, has_query).0, api_path),
        has_text(http_call_text("DELETE"@, api_path, has_query).0, api_path),
{
    lemma_has_text(api_path);
    lemma_method_names_differ();
    lemma_has_text("client.get("@);
    lemma_has_text("client.post("@);
    lemma_has_text("client.patch("@);
    lemma_has_text("client.put("@);
    lemma_has_text("client.delete("@);
}

// ---------------------------------------------------------------------------
// The custom field type
// ---------------------------------------------------------------------------

/// How many bytes UTF-8 takes for `c`.
pub open spec fn char_utf8_len(c: char) -> nat {
    if (c as u32) < 0x80 {
        1
    } else if (c as u32) < 0x800 {
        2
    } else if (c as u32) < 0x10000 {
        3
    } else {
        4
    }
}

/// The length of `s` in UTF-8 bytes (`str::len`).
pub open spec fn utf8_len(s: Seq<char>) -> nat
    decreases s.len(),
{
    if s.len() == 0 {
        0
    } else {
        utf8_len(s.drop_last()) + char_utf8_len(s.last())
    }
}

fn utf8_len_exceeds(s: &Vec<char>, bound: usize) -> (r: bool)
    ensures
        r == (utf8_len(s@) > bound),
{
    let mut n: usize = 0;
    let mut i: usize = 0;
    assert(s@.take(0) =~= Seq::<char>::empty());
    while i < s.len()
        invariant
            i <= s.len(),
            n == utf8_len(s@.take(i as int)),
            n <= bound,
        decreases s.len() - i,
    {
        assert(s@.take(i + 1).drop_last() =~= s@.take(i as int));
        let x = s[i] as u32;
        let w: usize = if x < 0x80 {
            1
        } else if x < 0x800 {
            2
        } else if x < 0x10000 {
            3
        } else {
            4
        };
        if w > bound - n {
            proof {
                lemma_utf8_len_prefix(s@, i + 1);
            }
            return true;
        }
        n = n + w;
        i = i + 1;
    }
    assert(s@.take(s.len() as int) =~= s@);
    false
}

proof fn lemma_utf8_len_prefix(s: Seq<char>, i: int)
    requires
        0 <= i <= s.len(),
    ensures
        utf8_len(s.take(i)) <= utf8_len(s),
    decreases s.len() - i,
{
    if i < s.len() {
        lemma_utf8_len_prefix(s, i + 1);
        assert(s.take(i + 1).drop_last() =~= s.take(i));
    } else {
        assert(s.take(i) =~= s);
    }
}

/// The custom field type named by a snake-case action name: its last
/// `_`-separated part, without a final `s` when that part ends in `s` and
/// is longer than 3 bytes.
pub open spec fn field_type_of(snake: Seq<char>) -> Seq<char> {
    let last = split_char(snake, '_').last();
    if ends_with(last, seq!['s']) && utf8_len(last) > 3 {
        last.drop_last()
    } else {
        last
    }
}

/// The custom field type of an action whose name is already in snake case.
pub fn determine_custom_field_type(snake_case_name: &str) -> (r: String)
    ensures
        r@ == field_type_of(snake_case_name@),
{
    let parts = split_char_exec(&chars_of(snake_case_name), '_');
    proof {
        crate::text::lemma_split_char_nonempty(snake_case_name@, '_');
        assert(views(parts@).last() == parts@.last()@);
    }
    let last = &parts[parts.len() - 1];
    let n = last.len();
    if n > 0 && last[n - 1] == 's' && utf8_len_exceeds(last, 3) {
        assert(last@.subrange(n - 1, n as int) =~= seq!['s']);
        assert(ends_with(last@, seq!['s']));
        let mut cut: Vec<char> = Vec::new();
        let mut i: usize = 0;
        while i + 1 < n
            invariant
                n == last.len(),
                n > 0,
                i + 1 <= n,
                cut@ == last@.take(i as int),
            decreases n - i,
        {
            cut.push(last[i]);
            i = i + 1;
            assert(cut@ =~= last@.take(i as int));
        }
        assert(cut@ =~= last@.drop_last());
        string_of(&cut)
    } else {
        proof {
            if n > 0 && last@[n - 1] == 's' {
            } else {
                if n > 0 {
                    assert(last@.subrange(n - 1, n as int)[0] == last@[n - 1]);
                }
                assert(!ends_with(last@, seq!['s']));
            }
        }
        string_of(last)
    }
}

/// Determine the custom field type from an action name (for example
/// `getDealProducts` gives `product`, `addOrganization` gives `organization`).
pub fn determine_custom_field_type_from_action_name(action_name: &str) -> (r: String)
    ensures
        r@ == field_type_of(snake_case(action_name@)),
{
    let snake = to_snake_case(action_name);
    determine_custom_field_type(snake.as_str())
}

// ---------------------------------------------------------------------------
// Rendering the executor
// ---------------------------------------------------------------------------

/// The rendered path parameter helpers, or empty where there are no path
/// parameters.
pub open spec fn path_functions_of(
    tm: Map<Seq<char>, Seq<char>>,
    params: Seq<JsonV>,
    has_path: bool,
) -> Result<Seq<char>, Seq<char>> {
    if has_path {
        render_of(
            tm,
            "path_parameter_functions"@,
            seq![("PATH_PARAMETER_EXTRACTION"@, path_extraction_text(params))],
        )
    } else {
        Ok(Seq::empty())
    }
}

/// The rendered query parameter helpers, or empty where there are no query
/// parameters.
pub open spec fn query_functions_of(
    tm: Map<Seq<char>, Seq<char>>,
    params: Seq<JsonV>,
    has_query: bool,
) -> Result<Seq<char>, Seq<char>> {
    if has_query {
        render_of(
            tm,
            "query_parameter_functions"@,
            seq![("QUERY_PARAMETER_BUILDING"@, query_building_text(params))],
        )
    } else {
        Ok(Seq::empty())
    }
}

/// The GET executor, or the message of the template error.
pub open spec fn get_executor_of(
    tm: Map<Seq<char>, Seq<char>>,
    action_name: Seq<char>,
    http_call: Seq<char>,
    params: Seq<JsonV>,
    input_data_used: bool,
) -> Result<Seq<char>, Seq<char>> {
    match path_functions_of(tm, params, has_path_names(params)) {
        Err(e) => Err(e),
        Ok(pf) => match query_functions_of(tm, params, any_named_query_param(params)) {
            Err(e) => Err(e),
            Ok(qf) => render_of(
                tm,
                "get_executor"@,
                seq![
                    ("HTTP_CALL"@, http_call),
                    ("ACTION_NAME"@, field_type_of(snake_case(action_name))),
                    ("PATH_PARAMETER_FUNCTIONS"@, pf),
                    ("QUERY_PARAMETER_FUNCTIONS"@, qf),
                    (
                        "INPUT_DATA_PARAM"@,
                        if input_data_used {
                            "input_data"@
                        } else {
                            "_input_data"@
                        },
                    ),
                ],
            ),
        },
    }
}

/// The DELETE executor, or the message of the template error.
pub open spec fn delete_executor_of(
    tm: Map<Seq<char>, Seq<char>>,
    action_name: Seq<char>,
    http_call: Seq<char>,
    has_path: bool,
    params: Seq<JsonV>,
) -> Result<Seq<char>, Seq<char>> {
    match path_functions_of(tm, params, has_path) {
        Err(e) => Err(e),
        Ok(pf) => render_of(
            tm,
            "delete_executor"@,
            seq![
                ("HTTP_CALL"@, http_call),
                ("ACTION_NAME"@, field_type_of(snake_case(action_name))),
                ("PATH_PARAMETER_FUNCTIONS"@, pf),
            ],
        ),
    }
}

/// The POST/PATCH executor, or the message of the template error.
pub open spec fn post_patch_executor_of(
    tm: Map<Seq<char>, Seq<char>>,
    action_name: Seq<char>,
    body_handling: Seq<char>,
    http_call: Seq<char>,
    path_param_names: Seq<char>,
    has_path: bool,
    params: Seq<JsonV>,
) -> Result<Seq<char>, Seq<char>> {
    match path_functions_of(tm, params, has_path) {
        Err(e) => Err(e),
        Ok(pf) => render_of(
            tm,
            "post_patch_executor"@,
            seq![
                ("BODY_HANDLING"@, body_handling),
                ("HTTP_CALL"@, http_call),
                ("PATH_PARAM_NAMES"@, path_param_names),
                ("ACTION_NAME"@, field_type_of(snake_case(action_name))),
                ("PATH_PARAMETER_FUNCTIONS"@, pf),
            ],
        ),
    }
}

fn render_path_functions(templates: &TemplateManager, parameters: &Vec<Json>, has_path: bool) -> (r:
    Result<String, GenerateActionError>)
    ensures
        match path_functions_of(templates@, values_view(parameters@), has_path) {
            Ok(t) => r matches Ok(s) && s@ == t,
            Err(m) => r matches Err(GenerateActionError::TemplateError(e)) && e@ == m,
        },
{
    if has_path {
        let mut vars: Vec<(String, String)> = Vec::new();
        vars.push(
            ("PATH_PARAMETER_EXTRACTION".to_owned(), generate_path_parameter_extraction(parameters)),
        );
        assert(vars_view(vars@) =~= seq![
            ("PATH_PARAMETER_EXTRACTION"@, path_extraction_text(values_view(parameters@))),
        ]);
        templates.render("path_parameter_functions", &vars)
    } else {
        Ok(String::new())
    }
}

fn render_query_functions(templates: &TemplateManager, parameters: &Vec<Json>, has_query: bool) -> (r:
    Result<String, GenerateActionError>)
    ensures
        match query_functions_of(templates@, values_view(parameters@), has_query) {
            Ok(t) => r matches Ok(s) && s@ == t,
            Err(m) => r matches Err(GenerateActionError::TemplateError(e)) && e@ == m,
        },
{
    if has_query {
        let mut vars: Vec<(String, String)> = Vec::new();
        vars.push(
            ("QUERY_PARAMETER_BUILDING".to_owned(), generate_query_parameter_building(parameters)),
        );
        assert(vars_view(vars@) =~= seq![
            ("QUERY_PARAMETER_BUILDING"@, query_building_text(values_view(parameters@))),
        ]);
        templates.render("query_parameter_functions", &vars)
    } else {
        Ok(String::new())
    }
}

/// Generate GET executor code.
pub fn generate_get_executor_code(
    templates: &TemplateManager,
    action_name: &str,
    http_call: &str,
    parameters: &Vec<Json>,
    input_data_used: bool,
) -> (r: Result<String, GenerateActionError>)
    ensures
        match get_executor_of(
            templates@,
            action_name@,
            http_call@,
            values_view(parameters@),
            input_data_used,
        ) {
            Ok(t) => r matches Ok(s) && s@ == t,
            Err(m) => r matches Err(GenerateActionError::TemplateError(e)) && e@ == m,
        },
{
    let names = extract_path_parameter_names(parameters);
    let has_path_params = has_path_names_exec(&names);
    let has_query_params = any_query_param_exec(parameters, true);
    let path_functions = match render_path_functions(templates, parameters, has_path_params) {
        Ok(v) => v,
        Err(e) => {
            return Err(e);
        },
    };
    let query_functions = match render_query_functions(templates, parameters, has_query_params) {
        Ok(v) => v,
        Err(e) => {
            return Err(e);
        },
    };
    let input_param = if input_data_used {
        "input_data".to_owned()
    } else {
        "_input_data".to_owned()
    };
    let ghost pf = path_functions@;
    let ghost qf = query_functions@;
    let ghost ip = input_param@;
    let mut vars: Vec<(String, String)> = Vec::new();
    vars.push(("HTTP_CALL".to_owned(), http_call.to_owned()));
    vars.push(
        ("ACTION_NAME".to_owned(), determine_custom_field_type_from_action_name(action_name)),
    );
    vars.push(("PATH_PARAMETER_FUNCTIONS".to_owned(), path_functions));
    vars.push(("QUERY_PARAMETER_FUNCTIONS".to_owned(), query_functions));
    vars.push(("INPUT_DATA_PARAM".to_owned(), input_param));
    assert(vars_view(vars@) =~= seq![
        ("HTTP_CALL"@, http_call@),
        ("ACTION_NAME"@, field_type_of(snake_case(action_name@))),
        ("PATH_PARAMETER_FUNCTIONS"@, pf),
        ("QUERY_PARAMETER_FUNCTIONS"@, qf),
        ("INPUT_DATA_PARAM"@, ip),
    ]);
    templates.render("get_executor", &vars)
}

/// Generate DELETE executor code.
pub fn generate_delete_executor_code(
    templates: &TemplateManager,
    action_name: &str,
    http_call: &str,
    has_path_params: bool,
    parameters: &Vec<Json>,
) -> (r: Result<String, GenerateActionError>)
    ensures
        match delete_executor_of(
            templates@,
            action_name@,
            http_call@,
            has_path_params,
            values_view(parameters@),
        ) {
            Ok(t) => r matches Ok(s) && s@ == t,
            Err(m) => r matches Err(GenerateActionError::TemplateError(e)) && e@ == m,
        },
{
    let path_functions = match render_path_functions(templates, parameters, has_path_params) {
        Ok(v) => v,
        Err(e) => {
            return Err(e);
        },
    };
    let ghost pf = path_functions@;
    let mut vars: Vec<(String, String)> = Vec::new();
    vars.push(("HTTP_CALL".to_owned(), http_call.to_owned()));
    vars.push(
        ("ACTION_NAME".to_owned(), determine_custom_field_type_from_action_name(action_name)),
    );
    vars.push(("PATH_PARAMETER_FUNCTIONS".to_owned(), path_functions));
    assert(vars_view(vars@) =~= seq![
        ("HTTP_CALL"@, http_call@),
        ("ACTION_NAME"@, field_type_of(snake_case(action_name@))),
        ("PATH_PARAMETER_FUNCTIONS"@, pf),
    ]);
    templates.render("delete_executor", &vars)
}

/// Generate POST/PATCH executor code.
pub fn generate_post_patch_executor_code(
    templates: &TemplateManager,
    action_name: &str,
    body_handling: &str,
    http_call: &str,
    path_param_names: &str,
    has_path_params: bool,
    parameters: &Vec<Json>,
) -> (r: Result<String, GenerateActionError>)
    ensures
        match post_patch_executor_of(
            templates@,
            action_name@,
            body_handling@,
            http_call@,
            path_param_names@,
            has_path_params,
            values_view(parameters@),
        ) {
            Ok(t) => r matches Ok(s) && s@ == t,
            Err(m) => r matches Err(GenerateActionError::TemplateError(e)) && e@ == m,
        },
{
    let path_functions = match render_path_functions(templates, parameters, has_path_params) {
        Ok(v) => v,
        Err(e) => {
            return Err(e);
        },
    };
    let ghost pf = path_functions@;
    let mut vars: Vec<(String, String)> = Vec::new();
    vars.push(("BODY_HANDLING".to_owned(), body_handling.to_owned()));
    vars.push(("HTTP_CALL".to_owned(), http_call.to_owned()));
    vars.push(("PATH_PARAM_NAMES".to_owned(), path_param_names.to_owned()));
    vars.push(
        ("ACTION_NAME".to_owned(), determine_custom_field_type_from_action_name(action_name)),
    );
    vars.push(("PATH_PARAMETER_FUNCTIONS".to_owned(), path_functions));
    assert(vars_view(vars@) =~= seq![
        ("BODY_HANDLING"@, body_handling@),
        ("HTTP_CALL"@, http_call@),
        ("PATH_PARAM_NAMES"@, path_param_names@),
        ("ACTION_NAME"@, field_type_of(snake_case(action_name@))),
        ("PATH_PARAMETER_FUNCTIONS"@, pf),
    ]);
    templates.render("post_patch_executor", &vars)
}

/// The executor for a lowercase method: GET, DELETE, or else POST/PATCH.
pub open spec fn executor_for_method_of(
    tm: Map<Seq<char>, Seq<char>>,
    method_lower: Seq<char>,
    action_name: Seq<char>,
    http_call: Seq<char>,
    input_data_used: bool,
    body_handling: Seq<char>,
    path_param_names: Seq<char>,
    params: Seq<JsonV>,
) -> Result<Seq<char>, Seq<char>> {
    let has_path = !contains_seq(path_param_names, "__none__"@);
    if method_lower == "get"@ {
        get_executor_of(tm, action_name, http_call, params, input_data_used)
    } else if method_lower == "delete"@ {
        delete_executor_of(tm, action_name, http_call, has_path, params)
    } else {
        post_patch_executor_of(
            tm,
            action_name,
            body_handling,
            http_call,
            path_param_names,
            has_path,
            params,
        )
    }
}

/// The executor code for the method in lowercase, `method_lower`, from the
/// pieces already generated.
pub fn executor_code_for_method(
    templates: &TemplateManager,
    method_lower: &str,
    action_name: &str,
    http_call: &str,
    input_data_used: bool,
    body_handling: &str,
    path_param_names: &str,
    parameters: &Vec<Json>,
) -> (r: Result<String, GenerateActionError>)
    ensures
        match executor_for_method_of(
            templates@,
            method_lower@,
            action_name@,
            http_call@,
            input_data_used,
            body_handling@,
            path_param_names@,
            values_view(parameters@),
        ) {
            Ok(t) => r matches Ok(s) && s@ == t,
            Err(m) => r matches Err(GenerateActionError::TemplateError(e)) && e@ == m,
        },
{
    let nc = chars_of(path_param_names);
    let marker = chars_of("__none__");
    let has_path_params = !contains_exec(&nc, &marker);
    if str_eq(method_lower, "get") {
        generate_get_executor_code(templates, action_name, http_call, parameters, input_data_used)
    } else if str_eq(method_lower, "delete") {
        generate_delete_executor_code(
            templates,
            action_name,
            http_call,
            has_path_params,
            parameters,
        )
    } else {
        generate_post_patch_executor_code(
            templates,
            action_name,
            body_handling,
            http_call,
            path_param_names,
            has_path_params,
            parameters,
        )
    }
}

/// The executor code of the operation at `schema_path` and `method`, or the
/// error: a schema error where the operation is missing, else a template
/// error from rendering.
pub open spec fn executor_code_of(
    tm: Map<Seq<char>, Seq<char>>,
    schema: JsonV,
    action_name: Seq<char>,
    schema_path: Seq<char>,
    method: Seq<char>,
    api_path: Seq<char>,
) -> Result<Seq<char>, GenerateActionErrorV> {
    match operation_object(schema, schema_path, method) {
        Err(m) => Err(GenerateActionErrorV::SchemaError(m)),
        Ok(op) => {
            let params = resolve_params(
                schema,
                match get_arr(op, "parameters"@) {
                    Some(a) => a,
                    None => Seq::empty(),
                },
            );
            let names = path_names_text(params);
            let body = body_handling_text(request_body_schema_of(op), names);
            let call = http_call_text(uppercase_str(method), api_path, any_query_param(params));
            match executor_for_method_of(
                tm,
                lowercase_str(method),
                action_name,
                call.0,
                call.1,
                body,
                names,
                params,
            ) {
                Ok(t) => Ok(t),
                Err(m) => Err(GenerateActionErrorV::TemplateError(m)),
            }
        },
    }
}

/// Generate executor code for an action, rendered with the loaded `templates`.
pub fn generate_executor_code(
    templates: &TemplateManager,
    schema: &Json,
    action_name: &str,
    schema_path: &str,
    method: &str,
    api_path: &str,
) -> (r: Result<String, GenerateActionError>)
    ensures
        match executor_code_of(templates@, schema@, action_name@, schema_path@, method@, api_path@) {
            Ok(t) => r matches Ok(s) && s@ == t,
            Err(e) => r matches Err(re) && re@ == e,
        },
        operation_object(schema@, schema_path@, method@) is Ok && is_ascii_text(method@) ==> (
        uppercase_str(method@) == method@.map_values(|c: char| ascii_upper(c)) && lowercase_str(method@) == method@.map_values(|c: char| ascii_lower(c))),
{
    let op = match super::schema_generator::operation_object_exec(schema, schema_path, method) {
        Ok(v) => v,
        Err(e) => {
            return Err(e);
        },
    };
    let empty_params: Vec<Json> = Vec::new();
    let raw: &Vec<Json> = match op.get("parameters") {
        Some(Json::Array(a)) => {
            proof {
                crate::json::lemma_array_view(*a);
            }
            a
        },
        _ => &empty_params,
    };
    assert(values_view(empty_params@) =~= Seq::<JsonV>::empty());
    let parameters = resolve_params_exec(schema, raw);
    let body_schema: Json = match op.get("requestBody") {
        Some(rb) => match super::schema_generator::json_schema_of_exec(rb) {
            Some(s) => s.deep_clone(),
            None => Json::empty_object(),
        },
        None => Json::empty_object(),
    };
    let path_param_names = extract_path_parameter_names(&parameters);
    let body_handling = generate_body_handling(&body_schema, path_param_names.as_str());
    let (http_call, input_data_used) = generate_http_call(method, api_path, &parameters);
    let method_lower = str_to_lowercase(method);
    match executor_code_for_method(
        templates,
        method_lower.as_str(),
        action_name,
        http_call.as_str(),
        input_data_used,
        body_handling.as_str(),
        path_param_names.as_str(),
        &parameters,
    ) {
        Ok(s) => Ok(s),
        Err(e) => Err(e),
    }
}

} // verus!
