use base_connector_tools::json::{Json, JsonNumber};
use base_connector_tools::postman_body::{extract_body_schema, infer_json_schema};
use base_connector_tools::documents::parse_texts;
use base_connector_tools::postman_collection::{
    api_spec_from_value, is_postman_collection, looks_like_json, parse_api_spec,
    postman_body_parse_table, postman_collection_to_openapi, ApiSpecError, PostmanConversionError,
};
use base_connector_tools::postman_text::{
    join_display_path, normalize_postman_braces, path_from_raw_url,
    replace_postman_template_vars_with_null_outside_strings, unique_snake_id,
};
use serde_json::Value;

fn to_json(v: &Value) -> Json {
    match v {
        Value::Null => Json::Null,
        Value::Bool(b) => Json::Bool(*b),
        Value::Number(n) => Json::Number(JsonNumber { text: n.to_string(), is_i64: n.is_i64() }),
        Value::String(s) => Json::String(s.clone()),
        Value::Array(a) => Json::Array(a.iter().map(to_json).collect()),
        Value::Object(m) => Json::Object(m.iter().map(|(k, x)| (k.clone(), to_json(x))).collect()),
    }
}

fn parse(text: &str) -> Json {
    to_json(&serde_json::from_str::<Value>(text).unwrap())
}

fn convert(col: &Json) -> Result<Json, PostmanConversionError> {
    postman_collection_to_openapi(col, &postman_body_parse_table(col))
}

fn text_of(j: Option<&Json>) -> Option<&str> {
    j.and_then(|x| x.as_str()).map(|s| s.as_str())
}

#[test]
fn converts_minimal_collection() {
    let col = parse(
        r#"{"info": {"name": "Test", "schema": "https://schema.getpostman.com/json/collection/v2.1.0/collection.json"},
            "item": [{"name": "List Users", "request": {"method": "GET", "url": "https://api.example.com/v1/users?limit=10"}}]}"#,
    );
    let oas = convert(&col).unwrap();
    let paths = oas.get("paths").unwrap().as_object().unwrap();
    assert_eq!(paths.len(), 1);
    let (_path, path_obj) = paths.iter().next().unwrap();
    let get = path_obj.get("get").unwrap();
    assert_eq!(text_of(get.get("operationId")), Some("list_users"));
    assert_eq!(text_of(get.get("x-connector-api-path")), Some("/v1/users"));
}

#[test]
fn postman_braces_normalized() {
    assert_eq!(normalize_postman_braces("/v1/{{id}}/x"), "/v1/{id}/x");
}

#[test]
fn template_vars_replaced_outside_strings() {
    let s = r#"{"key": {{apiKey}}, "name": "a {{b}} c"}"#;
    let out = replace_postman_template_vars_with_null_outside_strings(s);
    assert!(serde_json::from_str::<Value>(&out).is_ok());
    let v: Value = serde_json::from_str(&out).unwrap();
    assert!(v.get("key").unwrap().is_null());
    assert_eq!(v.get("name").and_then(|x| x.as_str()), Some("a {{b}} c"));
}

#[test]
fn raw_body_object_with_value_field() {
    let req = parse(
        r#"{"method": "POST", "url": "https://example.com/x",
            "body": {"mode": "raw", "raw": {"language": "json", "value": "{\"foo\": 1, \"bar\": {{x}} }"}}}"#,
    );
    let m = req.as_object().unwrap();
    let mut consulted: Vec<String> = Vec::new();
    let _ = extract_body_schema(m, &Vec::new(), &mut consulted);
    let parsed = parse_texts(&consulted);
    let mut again: Vec<String> = Vec::new();
    let sch = extract_body_schema(m, &parsed, &mut again);
    let props = sch.get("properties").unwrap().as_object().unwrap();
    assert!(props.iter().any(|(k, _)| k == "foo"));
    assert!(props.iter().any(|(k, _)| k == "bar"));
}

#[test]
fn braces_without_name_or_close_are_kept() {
    assert_eq!(normalize_postman_braces("/a/{{}}/b"), "/a/{{}}/b");
    assert_eq!(normalize_postman_braces("/a/{{open"), "/a/{{open");
    assert_eq!(normalize_postman_braces("/plain"), "/plain");
}

#[test]
fn raw_url_paths() {
    assert_eq!(path_from_raw_url("https://api.example.com/v1/users?limit=10"), "/v1/users");
    assert_eq!(path_from_raw_url("https://api.example.com"), "/");
    assert_eq!(path_from_raw_url("{{baseUrl}}/users/{{id}}#frag"), "/{baseUrl}/users/{id}");
    assert_eq!(path_from_raw_url("/already/rooted"), "/already/rooted");
}

#[test]
fn template_vars_inside_strings_and_escapes_are_kept() {
    let s = r#"{"a": "x \" {{y}}", "b": {{z}}}"#;
    assert_eq!(
        replace_postman_template_vars_with_null_outside_strings(s),
        r#"{"a": "x \" {{y}}", "b": null}"#
    );
    assert_eq!(replace_postman_template_vars_with_null_outside_strings("no vars"), "no vars");
}

#[test]
fn unique_ids_are_fresh() {
    let mut used: Vec<String> = Vec::new();
    assert_eq!(unique_snake_id("List Users", &mut used), "list_users");
    assert_eq!(unique_snake_id("List users", &mut used), "list_users_2");
    assert_eq!(unique_snake_id("list-users", &mut used), "list_users_3");
    assert_eq!(unique_snake_id("!!!", &mut used), "request");
    assert_eq!(used.len(), 4);
    let mut sorted = used.clone();
    sorted.sort();
    sorted.dedup();
    assert_eq!(sorted.len(), 4);
}

#[test]
fn display_path_joins_folders() {
    let folders = vec!["Users".to_string(), "Admin".to_string()];
    assert_eq!(join_display_path(&folders, "Delete"), "Users / Admin / Delete");
    assert_eq!(join_display_path(&Vec::new(), "Solo"), "Solo");
}

#[test]
fn collection_detection() {
    let col = parse(r#"{"info": {"_postman_id": "1"}, "item": [{}]}"#);
    assert!(is_postman_collection(&col));
    let oas = parse(r#"{"openapi": "3.0.0", "info": {"_postman_id": "1"}, "item": [{}]}"#);
    assert!(!is_postman_collection(&oas));
    let empty = parse(r#"{"info": {"_postman_id": "1"}, "item": []}"#);
    assert!(!is_postman_collection(&empty));
    let other = parse(r#"{"info": {"schema": "https://example.com"}, "item": [{}]}"#);
    assert!(!is_postman_collection(&other));
}

#[test]
fn openapi_documents_pass_through() {
    let doc = parse(r#"{"openapi": "3.0.0", "paths": {}}"#);
    let out = api_spec_from_value(doc.deep_clone(), true, &Vec::new()).unwrap();
    assert_eq!(text_of(out.get("openapi")), Some("3.0.0"));
    let yaml_doc = parse(r#"{"anything": 1}"#);
    assert!(api_spec_from_value(yaml_doc.deep_clone(), false, &Vec::new()).is_ok());
    let err = api_spec_from_value(yaml_doc, true, &Vec::new()).unwrap_err();
    assert!(matches!(err, ApiSpecError::UnrecognizedJson));
    assert_eq!(
        err.to_message(),
        "JSON is neither OpenAPI/Swagger nor a Postman collection (missing openapi/swagger/info+item)"
    );
}

#[test]
fn json_or_yaml_by_first_character() {
    assert!(looks_like_json("  \n {\"a\": 1}"));
    assert!(looks_like_json("[1]"));
    assert!(!looks_like_json("openapi: 3.0.0"));
}

#[test]
fn collection_without_requests_is_refused() {
    let col = parse(r#"{"info": {"_postman_id": "1"}, "item": [{"name": "folder", "item": []}]}"#);
    let err = convert(&col).unwrap_err();
    assert_eq!(err.to_message(), "Postman collection contains no HTTP requests");
    let no_items = parse(r#"{"info": {"_postman_id": "1"}}"#);
    assert!(matches!(convert(&no_items), Err(PostmanConversionError::MissingItemArray)));
}

#[test]
fn requests_in_folders_get_their_own_paths_and_ids() {
    let col = parse(
        r#"{"info": {"_postman_id": "1"},
            "item": [{"name": "Users", "item": [
                {"name": "Get", "request": {"method": "GET", "url": {"raw": "{{base}}/users/:id", "path": ["users", ":id"]}}},
                {"name": "Get", "request": {"method": "POST", "url": "https://x.io/users"}}]}]}"#,
    );
    let oas = convert(&col).unwrap();
    let paths = oas.get("paths").unwrap().as_object().unwrap();
    assert_eq!(paths.len(), 2);
    let mut ids: Vec<String> = Vec::new();
    for (_p, item) in paths {
        for (_m, op) in item.as_object().unwrap() {
            ids.push(text_of(op.get("operationId")).unwrap().to_string());
        }
    }
    ids.sort();
    assert_eq!(ids, vec!["users_get".to_string(), "users_get_2".to_string()]);
}

#[test]
fn inferred_schema_of_values() {
    let v = parse(r#"{"n": 1, "f": 1.5, "s": "x", "b": true, "z": null, "a": [1]}"#);
    let sch = infer_json_schema(&v);
    assert_eq!(text_of(sch.get("type")), Some("object"));
    let props = sch.get("properties").unwrap();
    assert_eq!(text_of(props.get("n").unwrap().get("type")), Some("integer"));
    assert_eq!(text_of(props.get("f").unwrap().get("type")), Some("number"));
    assert_eq!(text_of(props.get("s").unwrap().get("type")), Some("string"));
    assert_eq!(text_of(props.get("b").unwrap().get("type")), Some("boolean"));
    assert_eq!(text_of(props.get("a").unwrap().get("type")), Some("array"));
}

#[test]
fn json_without_template_vars_is_unchanged() {
    let body = r#"{"a": {"b": [1, {}]}, "c": "{x}"}"#;
    assert_eq!(replace_postman_template_vars_with_null_outside_strings(body), body);
}

#[test]
fn api_descriptions_from_text() {
    let oas = parse_api_spec("{\"openapi\": \"3.0.0\", \"paths\": {}}").unwrap();
    assert_eq!(text_of(oas.get("openapi")), Some("3.0.0"));
    let yaml = parse_api_spec("openapi: 3.0.0\npaths: {}\n").unwrap();
    assert_eq!(text_of(yaml.get("openapi")), Some("3.0.0"));
    assert!(matches!(parse_api_spec("{not json"), Err(ApiSpecError::Json(_))));
    assert!(matches!(parse_api_spec("a: [1"), Err(ApiSpecError::Yaml(_))));
    assert!(matches!(parse_api_spec("{\"x\": 1}"), Err(ApiSpecError::UnrecognizedJson)));
    let col = parse_api_spec(
        r#"{"info": {"_postman_id": "1"}, "item": [{"name": "Make", "request": {"method": "POST", "url": "https://x.io/make",
            "body": {"mode": "raw", "raw": "{\"a\": {{v}} }"}}}]}"#,
    )
    .unwrap();
    let paths = col.get("paths").unwrap().as_object().unwrap();
    let op = paths[0].1.get("post").unwrap();
    assert_eq!(text_of(op.get("x-connector-api-path")), Some("/make"));
    let body_schema = op.get("requestBody").unwrap().get("content").unwrap()
        .get("application/json").unwrap().get("schema").unwrap();
    assert!(body_schema.get("properties").unwrap().get("a").is_some());
}
