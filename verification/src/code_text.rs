//! The fixed pieces of generated connector code.
use vstd::prelude::*;

use crate::text::{append_str, chars_of, string_of};

verus! {

/// Request body built from the input without empty values and without the path parameters listed in `a`.
pub open spec fn body_with_path_params_text(a: Seq<char>) -> Seq<char> {
    "    let request_body = request_body_without_empty_values(input_data, "@ + a + ")?;\n"@
}

/// Request body built from the input without empty values and without the path parameters listed in `a`.
pub fn body_with_path_params_code(a: &str) -> (r: String)
    ensures
        r@ == body_with_path_params_text(a@),
{
    let mut v = chars_of("    let request_body = request_body_without_empty_values(input_data, ");
    append_str(&mut v, a);
    append_str(&mut v, ")?;\n");
    string_of(&v)
}

/// No request body.
pub open spec fn body_without_schema_text() -> Seq<char> {
    "    let request_body = serde_json::Value::Null; // No request body required\n"@
}

/// No request body.
pub fn body_without_schema_code() -> (r: String)
    ensures
        r@ == body_without_schema_text(),
{
    let v = chars_of("    let request_body = serde_json::Value::Null; // No request body required\n");
    string_of(&v)
}

/// A GET call to the path template `a` with path and query parameters.
pub open spec fn get_path_query_text(a: Seq<char>) -> Seq<char> {
    "    let endpoint = build_endpoint(\""@ + a + "\", &extract_path_parameters(input_data)?);\n    let query_params = "@ + "build_query_parameters(input_data)"@ + "?;\n    let full_endpoint = if query_params.is_empty() {\n        endpoint\n    } else {\n        "@ + "format!(\"{}?{}\", endpoint, query_params)"@ + "\n    };\n    let response = "@ + "client.get("@ + "&full_endpoint)?;\n\n    Ok(response)\n"@
}

/// A GET call to the path template `a` with path and query parameters.
pub fn get_path_query_code(a: &str) -> (r: String)
    ensures
        r@ == get_path_query_text(a@),
{
    let mut v = chars_of("    let endpoint = build_endpoint(\"");
    append_str(&mut v, a);
    append_str(&mut v, "\", &extract_path_parameters(input_data)?);\n    let query_params = ");
    append_str(&mut v, "build_query_parameters(input_data)");
    append_str(&mut v, "?;\n    let full_endpoint = if query_params.is_empty() {\n        endpoint\n    } else {\n        ");
    append_str(&mut v, "format!(\"{}?{}\", endpoint, query_params)");
    append_str(&mut v, "\n    };\n    let response = ");
    append_str(&mut v, "client.get(");
    append_str(&mut v, "&full_endpoint)?;\n\n    Ok(response)\n");
    string_of(&v)
}

/// A GET call to the path template `a` with path parameters.
pub open spec fn get_path_text(a: Seq<char>) -> Seq<char> {
    "    let endpoint = build_endpoint(\""@ + a + "\", &extract_path_parameters(input_data)?);\n    let response = "@ + "client.get("@ + "&endpoint)?;\n\n    Ok(response)\n"@
}

/// A GET call to the path template `a` with path parameters.
pub fn get_path_code(a: &str) -> (r: String)
    ensures
        r@ == get_path_text(a@),
{
    let mut v = chars_of("    let endpoint = build_endpoint(\"");
    append_str(&mut v, a);
    append_str(&mut v, "\", &extract_path_parameters(input_data)?);\n    let response = ");
    append_str(&mut v, "client.get(");
    append_str(&mut v, "&endpoint)?;\n\n    Ok(response)\n");
    string_of(&v)
}

/// A GET call to the path `a` with query parameters.
pub open spec fn get_query_text(a: Seq<char>) -> Seq<char> {
    "    let endpoint = \""@ + a + "\".to_string();\n    let query_params = "@ + "build_query_parameters(input_data)"@ + "?;\n    let full_endpoint = if query_params.is_empty() {\n        endpoint\n    } else {\n        "@ + "format!(\"{}?{}\", endpoint, query_params)"@ + "\n    };\n    let response = "@ + "client.get("@ + "&full_endpoint)?;\n\n    Ok(response)\n"@
}

/// A GET call to the path `a` with query parameters.
pub fn get_query_code(a: &str) -> (r: String)
    ensures
        r@ == get_query_text(a@),
{
    let mut v = chars_of("    let endpoint = \"");
    append_str(&mut v, a);
    append_str(&mut v, "\".to_string();\n    let query_params = ");
    append_str(&mut v, "build_query_parameters(input_data)");
    append_str(&mut v, "?;\n    let full_endpoint = if query_params.is_empty() {\n        endpoint\n    } else {\n        ");
    append_str(&mut v, "format!(\"{}?{}\", endpoint, query_params)");
    append_str(&mut v, "\n    };\n    let response = ");
    append_str(&mut v, "client.get(");
    append_str(&mut v, "&full_endpoint)?;\n\n    Ok(response)\n");
    string_of(&v)
}

/// A GET call to the path `a`.
pub open spec fn get_plain_text(a: Seq<char>) -> Seq<char> {
    "    let endpoint = \""@ + a + "\".to_string();\n    let response = "@ + "client.get("@ + "&endpoint)?;\n\n    Ok(response)\n"@
}

/// A GET call to the path `a`.
pub fn get_plain_code(a: &str) -> (r: String)
    ensures
        r@ == get_plain_text(a@),
{
    let mut v = chars_of("    let endpoint = \"");
    append_str(&mut v, a);
    append_str(&mut v, "\".to_string();\n    let response = ");
    append_str(&mut v, "client.get(");
    append_str(&mut v, "&endpoint)?;\n\n    Ok(response)\n");
    string_of(&v)
}

/// A POST call to the path template `a` with path parameters.
pub open spec fn post_path_text(a: Seq<char>) -> Seq<char> {
    "    let endpoint = build_endpoint(\""@ + a + "\", &extract_path_parameters(input_data)?);\n    let response = "@ + "client.post("@ + "&endpoint, &request_body).map_err(|e| AppError {\n        code: ErrorCode::Other,\n        message: format!(\"POST request failed - URL: API base URL{}, Body: {}, Error: {}\",\n                        endpoint, serde_json::to_string(&request_body).unwrap_or_else(|_| \"Failed to serialize\".to_string()), e.message),\n    })?;\n\n    Ok(response)\n"@
}

/// A POST call to the path template `a` with path parameters.
pub fn post_path_code(a: &str) -> (r: String)
    ensures
        r@ == post_path_text(a@),
{
    let mut v = chars_of("    let endpoint = build_endpoint(\"");
    append_str(&mut v, a);
    append_str(&mut v, "\", &extract_path_parameters(input_data)?);\n    let response = ");
    append_str(&mut v, "client.post(");
    append_str(&mut v, "&endpoint, &request_body).map_err(|e| AppError {\n        code: ErrorCode::Other,\n        message: format!(\"POST request failed - URL: API base URL{}, Body: {}, Error: {}\",\n                        endpoint, serde_json::to_string(&request_body).unwrap_or_else(|_| \"Failed to serialize\".to_string()), e.message),\n    })?;\n\n    Ok(response)\n");
    string_of(&v)
}

/// A POST call to the path `a`.
pub open spec fn post_plain_text(a: Seq<char>) -> Seq<char> {
    "    let endpoint = \""@ + a + "\";\n    let response = "@ + "client.post("@ + "endpoint, &request_body).map_err(|e| AppError {\n        code: ErrorCode::Other,\n        message: format!(\"POST request failed - URL: API base URL{}, Body: {}, Error: {}\",\n                        endpoint, serde_json::to_string(&request_body).unwrap_or_else(|_| \"Failed to serialize\".to_string()), e.message),\n    })?;\n\n    Ok(response)\n"@
}

/// A POST call to the path `a`.
pub fn post_plain_code(a: &str) -> (r: String)
    ensures
        r@ == post_plain_text(a@),
{
    let mut v = chars_of("    let endpoint = \"");
    append_str(&mut v, a);
    append_str(&mut v, "\";\n    let response = ");
    append_str(&mut v, "client.post(");
    append_str(&mut v, "endpoint, &request_body).map_err(|e| AppError {\n        code: ErrorCode::Other,\n        message: format!(\"POST request failed - URL: API base URL{}, Body: {}, Error: {}\",\n                        endpoint, serde_json::to_string(&request_body).unwrap_or_else(|_| \"Failed to serialize\".to_string()), e.message),\n    })?;\n\n    Ok(response)\n");
    string_of(&v)
}

/// A PATCH call to the path template `a` with path parameters.
pub open spec fn patch_path_text(a: Seq<char>) -> Seq<char> {
    "    let endpoint = build_endpoint(\""@ + a + "\", &extract_path_parameters(input_data)?);\n    let response = "@ + "client.patch("@ + "&endpoint, &request_body).map_err(|e| AppError {\n        code: ErrorCode::Other,\n        message: format!(\"PATCH request failed - URL: API base URL{}, Body: {}, Error: {}\",\n                        endpoint, serde_json::to_string(&request_body).unwrap_or_else(|_| \"Failed to serialize\".to_string()), e.message),\n    })?;\n\n    Ok(response)\n"@
}

/// A PATCH call to the path template `a` with path parameters.
pub fn patch_path_code(a: &str) -> (r: String)
    ensures
        r@ == patch_path_text(a@),
{
    let mut v = chars_of("    let endpoint = build_endpoint(\"");
    append_str(&mut v, a);
    append_str(&mut v, "\", &extract_path_parameters(input_data)?);\n    let response = ");
    append_str(&mut v, "client.patch(");
    append_str(&mut v, "&endpoint, &request_body).map_err(|e| AppError {\n        code: ErrorCode::Other,\n        message: format!(\"PATCH request failed - URL: API base URL{}, Body: {}, Error: {}\",\n                        endpoint, serde_json::to_string(&request_body).unwrap_or_else(|_| \"Failed to serialize\".to_string()), e.message),\n    })?;\n\n    Ok(response)\n");
    string_of(&v)
}

/// A PATCH call to the path `a`.
pub open spec fn patch_plain_text(a: Seq<char>) -> Seq<char> {
    "    let endpoint = \""@ + a + "\";\n    let response = "@ + "client.patch("@ + "endpoint, &request_body).map_err(|e| AppError {\n        code: ErrorCode::Other,\n        message: format!(\"PATCH request failed - URL: API base URL{}, Body: {}, Error: {}\",\n                        endpoint, serde_json::to_string(&request_body).unwrap_or_else(|_| \"Failed to serialize\".to_string()), e.message),\n    })?;\n\n    Ok(response)\n"@
}

/// A PATCH call to the path `a`.
pub fn patch_plain_code(a: &str) -> (r: String)
    ensures
        r@ == patch_plain_text(a@),
{
    let mut v = chars_of("    let endpoint = \"");
    append_str(&mut v, a);
    append_str(&mut v, "\";\n    let response = ");
    append_str(&mut v, "client.patch(");
    append_str(&mut v, "endpoint, &request_body).map_err(|e| AppError {\n        code: ErrorCode::Other,\n        message: format!(\"PATCH request failed - URL: API base URL{}, Body: {}, Error: {}\",\n                        endpoint, serde_json::to_string(&request_body).unwrap_or_else(|_| \"Failed to serialize\".to_string()), e.message),\n    })?;\n\n    Ok(response)\n");
    string_of(&v)
}

/// A PUT call to the path template `a` with path parameters.
pub open spec fn put_path_text(a: Seq<char>) -> Seq<char> {
    "    let endpoint = build_endpoint(\""@ + a + "\", &extract_path_parameters(input_data)?);\n    let response = "@ + "client.put("@ + "&endpoint, &request_body).map_err(|e| AppError {\n        code: ErrorCode::Other,\n        message: format!(\"PUT request failed - URL: API base URL{}, Body: {}, Error: {}\",\n                        endpoint, serde_json::to_string(&request_body).unwrap_or_else(|_| \"Failed to serialize\".to_string()), e.message),\n    })?;\n\n    Ok(response)\n"@
}

/// A PUT call to the path template `a` with path parameters.
pub fn put_path_code(a: &str) -> (r: String)
    ensures
        r@ == put_path_text(a@),
{
    let mut v = chars_of("    let endpoint = build_endpoint(\"");
    append_str(&mut v, a);
    append_str(&mut v, "\", &extract_path_parameters(input_data)?);\n    let response = ");
    append_str(&mut v, "client.put(");
    append_str(&mut v, "&endpoint, &request_body).map_err(|e| AppError {\n        code: ErrorCode::Other,\n        message: format!(\"PUT request failed - URL: API base URL{}, Body: {}, Error: {}\",\n                        endpoint, serde_json::to_string(&request_body).unwrap_or_else(|_| \"Failed to serialize\".to_string()), e.message),\n    })?;\n\n    Ok(response)\n");
    string_of(&v)
}

/// A PUT call to the path `a`.
pub open spec fn put_plain_text(a: Seq<char>) -> Seq<char> {
    "    let endpoint = \""@ + a + "\";\n    let response = "@ + "client.put("@ + "endpoint, &request_body).map_err(|e| AppError {\n        code: ErrorCode::Other,\n        message: format!(\"PUT request failed - URL: API base URL{}, Body: {}, Error: {}\",\n                        endpoint, serde_json::to_string(&request_body).unwrap_or_else(|_| \"Failed to serialize\".to_string()), e.message),\n    })?;\n\n    Ok(response)\n"@
}

/// A PUT call to the path `a`.
pub fn put_plain_code(a: &str) -> (r: String)
    ensures
        r@ == put_plain_text(a@),
{
    let mut v = chars_of("    let endpoint = \"");
    append_str(&mut v, a);
    append_str(&mut v, "\";\n    let response = ");
    append_str(&mut v, "client.put(");
    append_str(&mut v, "endpoint, &request_body).map_err(|e| AppError {\n        code: ErrorCode::Other,\n        message: format!(\"PUT request failed - URL: API base URL{}, Body: {}, Error: {}\",\n                        endpoint, serde_json::to_string(&request_body).unwrap_or_else(|_| \"Failed to serialize\".to_string()), e.message),\n    })?;\n\n    Ok(response)\n");
    string_of(&v)
}

/// A DELETE call to the path template `a` with path parameters.
pub open spec fn delete_path_text(a: Seq<char>) -> Seq<char> {
    "    let endpoint = build_endpoint(\""@ + a + "\", &extract_path_parameters(input_data)?);\n    let response = "@ + "client.delete("@ + "&endpoint)?;\n\n    Ok(response)\n"@
}

/// A DELETE call to the path template `a` with path parameters.
pub fn delete_path_code(a: &str) -> (r: String)
    ensures
        r@ == delete_path_text(a@),
{
    let mut v = chars_of("    let endpoint = build_endpoint(\"");
    append_str(&mut v, a);
    append_str(&mut v, "\", &extract_path_parameters(input_data)?);\n    let response = ");
    append_str(&mut v, "client.delete(");
    append_str(&mut v, "&endpoint)?;\n\n    Ok(response)\n");
    string_of(&v)
}

/// A DELETE call to the path `a`.
pub open spec fn delete_plain_text(a: Seq<char>) -> Seq<char> {
    "    let endpoint = \""@ + a + "\".to_string();\n    let response = "@ + "client.delete("@ + "&endpoint)?;\n\n    Ok(response)\n"@
}

/// A DELETE call to the path `a`.
pub fn delete_plain_code(a: &str) -> (r: String)
    ensures
        r@ == delete_plain_text(a@),
{
    let mut v = chars_of("    let endpoint = \"");
    append_str(&mut v, a);
    append_str(&mut v, "\".to_string();\n    let response = ");
    append_str(&mut v, "client.delete(");
    append_str(&mut v, "&endpoint)?;\n\n    Ok(response)\n");
    string_of(&v)
}

/// An error for the unsupported HTTP method `a`.
pub open spec fn unsupported_method_text(a: Seq<char>) -> Seq<char> {
    "    return Err(AppError {\n        code: ErrorCode::Other,\n        message: format!(\"Unsupported HTTP method: {}\", \""@ + a + "\"),\n    });\n"@
}

/// An error for the unsupported HTTP method `a`.
pub fn unsupported_method_code(a: &str) -> (r: String)
    ensures
        r@ == unsupported_method_text(a@),
{
    let mut v = chars_of("    return Err(AppError {\n        code: ErrorCode::Other,\n        message: format!(\"Unsupported HTTP method: {}\", \"");
    append_str(&mut v, a);
    append_str(&mut v, "\"),\n    });\n");
    string_of(&v)
}

/// The endpoint of a trigger polling the path template `a` with path and query parameters.
pub open spec fn trigger_get_path_query_text(a: Seq<char>) -> Seq<char> {
    "    let endpoint = build_endpoint(\""@ + a + "\", &extract_path_parameters(&store_data)?);\n    let query_params = "@ + "build_query_parameters(&store_data)"@ + "?;\n    let full_endpoint = if query_params.is_empty() {\n        endpoint\n    } else {\n        "@ + "format!(\"{}?{}\", endpoint, query_params)"@ + "\n    };\n"@
}

/// The endpoint of a trigger polling the path template `a` with path and query parameters.
pub fn trigger_get_path_query_code(a: &str) -> (r: String)
    ensures
        r@ == trigger_get_path_query_text(a@),
{
    let mut v = chars_of("    let endpoint = build_endpoint(\"");
    append_str(&mut v, a);
    append_str(&mut v, "\", &extract_path_parameters(&store_data)?);\n    let query_params = ");
    append_str(&mut v, "build_query_parameters(&store_data)");
    append_str(&mut v, "?;\n    let full_endpoint = if query_params.is_empty() {\n        endpoint\n    } else {\n        ");
    append_str(&mut v, "format!(\"{}?{}\", endpoint, query_params)");
    append_str(&mut v, "\n    };\n");
    string_of(&v)
}

/// The endpoint of a trigger polling the path template `a` with path parameters.
pub open spec fn trigger_get_path_text(a: Seq<char>) -> Seq<char> {
    "    let endpoint = build_endpoint(\""@ + a + "\", &extract_path_parameters(&store_data)?);\n    let full_endpoint = endpoint;\n"@
}

/// The endpoint of a trigger polling the path template `a` with path parameters.
pub fn trigger_get_path_code(a: &str) -> (r: String)
    ensures
        r@ == trigger_get_path_text(a@),
{
    let mut v = chars_of("    let endpoint = build_endpoint(\"");
    append_str(&mut v, a);
    append_str(&mut v, "\", &extract_path_parameters(&store_data)?);\n    let full_endpoint = endpoint;\n");
    string_of(&v)
}

/// The endpoint of a trigger polling the path `a` with query parameters.
pub open spec fn trigger_get_query_text(a: Seq<char>) -> Seq<char> {
    "    let endpoint = \""@ + a + "\".to_string();\n    let query_params = "@ + "build_query_parameters(&store_data)"@ + "?;\n    let full_endpoint = if query_params.is_empty() {\n        endpoint\n    } else {\n        "@ + "format!(\"{}?{}\", endpoint, query_params)"@ + "\n    };\n"@
}

/// The endpoint of a trigger polling the path `a` with query parameters.
pub fn trigger_get_query_code(a: &str) -> (r: String)
    ensures
        r@ == trigger_get_query_text(a@),
{
    let mut v = chars_of("    let endpoint = \"");
    append_str(&mut v, a);
    append_str(&mut v, "\".to_string();\n    let query_params = ");
    append_str(&mut v, "build_query_parameters(&store_data)");
    append_str(&mut v, "?;\n    let full_endpoint = if query_params.is_empty() {\n        endpoint\n    } else {\n        ");
    append_str(&mut v, "format!(\"{}?{}\", endpoint, query_params)");
    append_str(&mut v, "\n    };\n");
    string_of(&v)
}

/// The endpoint of a trigger polling the path `a`.
pub open spec fn trigger_get_plain_text(a: Seq<char>) -> Seq<char> {
    "    let endpoint = \""@ + a + "\".to_string();\n    let full_endpoint = endpoint;\n"@
}

/// The endpoint of a trigger polling the path `a`.
pub fn trigger_get_plain_code(a: &str) -> (r: String)
    ensures
        r@ == trigger_get_plain_text(a@),
{
    let mut v = chars_of("    let endpoint = \"");
    append_str(&mut v, a);
    append_str(&mut v, "\".to_string();\n    let full_endpoint = endpoint;\n");
    string_of(&v)
}

/// An error for the HTTP method `a`, which a trigger does not support.
pub open spec fn trigger_unsupported_method_text(a: Seq<char>) -> Seq<char> {
    "    return Err(AppError {\n        code: ErrorCode::Other,\n        message: format!(\"Unsupported HTTP method for trigger: {}\", \""@ + a + "\"),\n    });\n"@
}

/// An error for the HTTP method `a`, which a trigger does not support.
pub fn trigger_unsupported_method_code(a: &str) -> (r: String)
    ensures
        r@ == trigger_unsupported_method_text(a@),
{
    let mut v = chars_of("    return Err(AppError {\n        code: ErrorCode::Other,\n        message: format!(\"Unsupported HTTP method for trigger: {}\", \"");
    append_str(&mut v, a);
    append_str(&mut v, "\"),\n    });\n");
    string_of(&v)
}

/// Reads the path parameter `a` from the trigger's store data.
pub open spec fn path_parameter_extraction_text(a: Seq<char>) -> Seq<char> {
    "    let "@ + a + " = store_data.get(\""@ + a + "\")\n        .and_then(|v| v.as_str())\n        .map(|s| s.to_string())\n        .or_else(|| store_data.get(\""@ + a + "\")\n            .and_then(|v| v.as_i64())\n            .map(|i| i.to_string()))\n        .ok_or_else(|| AppError {\n            code: ErrorCode::Misconfigured,\n            message: \""@ + a + " parameter is required in store\".to_string(),\n        })?;\n    params.insert(\""@ + a + "\".to_string(), serde_json::Value::String("@ + a + "));\n"@
}

/// Reads the path parameter `a` from the trigger's store data.
pub fn path_parameter_extraction_code(a: &str) -> (r: String)
    ensures
        r@ == path_parameter_extraction_text(a@),
{
    let mut v = chars_of("    let ");
    append_str(&mut v, a);
    append_str(&mut v, " = store_data.get(\"");
    append_str(&mut v, a);
    append_str(&mut v, "\")\n        .and_then(|v| v.as_str())\n        .map(|s| s.to_string())\n        .or_else(|| store_data.get(\"");
    append_str(&mut v, a);
    append_str(&mut v, "\")\n            .and_then(|v| v.as_i64())\n            .map(|i| i.to_string()))\n        .ok_or_else(|| AppError {\n            code: ErrorCode::Misconfigured,\n            message: \"");
    append_str(&mut v, a);
    append_str(&mut v, " parameter is required in store\".to_string(),\n        })?;\n    params.insert(\"");
    append_str(&mut v, a);
    append_str(&mut v, "\".to_string(), serde_json::Value::String(");
    append_str(&mut v, a);
    append_str(&mut v, "));\n");
    string_of(&v)
}

/// Adds the query parameter `a` from the trigger's store data.
pub open spec fn query_parameter_line_text(a: Seq<char>) -> Seq<char> {
    "    add_query_parameter(store_data, \""@ + a + "\", &mut query_parts);\n"@
}

/// Adds the query parameter `a` from the trigger's store data.
pub fn query_parameter_line_code(a: &str) -> (r: String)
    ensures
        r@ == query_parameter_line_text(a@),
{
    let mut v = chars_of("    add_query_parameter(store_data, \"");
    append_str(&mut v, a);
    append_str(&mut v, "\", &mut query_parts);\n");
    string_of(&v)
}

} // verus!
