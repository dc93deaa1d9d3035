use base_connector_tools::generate_action::error::GenerateActionError;
use base_connector_tools::generate_action::executor_generator::{
    determine_custom_field_type_from_action_name, generate_body_handling, generate_executor_code,
    generate_http_call,
};
use base_connector_tools::generate_action::schema_generator::{
    convert_enum_to_anyof, find_operation_by_id, generate_input_schema, generate_output_schema,
    resolve_ref, resolve_refs_recursive, resolve_schema,
};
use base_connector_tools::generate_action::template_manager::TemplateManager;
use base_connector_tools::json::{clone_entries, Json, JsonNumber};
use serde_json::Value;

fn to_json(v: &Value) -> Json {
    match v {
        Value::Null => Json::Null,
        Value::Bool(b) => Json::Bool(*b),
        Value::Number(n) => Json::Number(JsonNumber { text: n.to_string(), is_i64: n.is_i64() }),
        Value::String(s) => Json::String(s.clone()),
        Value::Array(a) => Json::Array(a.iter().map(to_json).collect()),
        Value::Object(m) => Json::Object(m.iter().map(|(k, x)| (k.clone(), to_json(x))).collect()),
    }
}

fn parse(text: &str) -> Json {
    to_json(&serde_json::from_str::<Value>(text).unwrap())
}

fn text_of(j: Option<&Json>) -> Option<&str> {
    j.and_then(|x| x.as_str()).map(|s| s.as_str())
}

fn keys(j: &Json) -> Vec<String> {
    j.as_object().unwrap().iter().map(|(k, _)| k.clone()).collect()
}

fn strings(j: &Json) -> Vec<String> {
    j.as_array().unwrap().iter().map(|x| x.as_str().unwrap().clone()).collect()
}

const SPEC: &str = r##"{
  "openapi": "3.0.0",
  "components": {
    "schemas": {
      "Base": {"type": "object", "properties": {"id": {"type": "integer"}}, "required": ["id"]},
      "Color": {"type": "string", "enum": ["red", "blue", 3]},
      "Node": {"type": "object", "properties": {"next": {"$ref": "#/components/schemas/Node"}}},
      "Loop": {"$ref": "#/components/schemas/Loop"}
    },
    "parameters": {
      "Limit": {"name": "limit", "in": "query", "required": true, "schema": {"type": "integer"}}
    }
  },
  "paths": {
    "/items/{itemId}": {
      "post": {
        "operationId": "addItem",
        "parameters": [
          {"name": "itemId", "in": "path", "required": true, "schema": {"type": "string", "enum": ["a", "b"]}},
          {"$ref": "#/components/parameters/Limit"},
          {"name": "h", "in": "header"},
          {"name": "q", "in": "query"}
        ],
        "requestBody": {"content": {"application/json": {"schema": {"allOf": [
          {"$ref": "#/components/schemas/Base"},
          {"type": "object", "properties": {"color": {"$ref": "#/components/schemas/Color"}}, "required": ["color"]}
        ]}}}},
        "responses": {"201": {"content": {"application/json": {"schema": {"$ref": "#/components/schemas/Base"}}}}}
      },
      "get": {
        "operationId": "getDealProducts",
        "parameters": [
          {"name": "itemId", "in": "path", "required": true},
          {"$ref": "#/components/parameters/Limit"}
        ],
        "responses": {"200": {"content": {"application/json": {"schema": {"type": "array", "items": {"$ref": "#/components/schemas/Base"}}}}}}
      },
      "delete": {
        "operationId": "deleteItem",
        "parameters": [{"name": "itemId", "in": "path", "required": true}],
        "responses": {"200": {"content": {"application/json": {"schema": {"$ref": "#/components/schemas/Node"}}}}}
      },
      "patch": {
        "operationId": "patchItem",
        "responses": {"200": {"content": {"application/json": {"schema": {"$ref": "#/components/schemas/Loop"}}}}}
      }
    }
  }
}"##;

fn templates() -> TemplateManager {
    let mut tm = TemplateManager::new();
    tm.insert_template(
        "get_executor",
        "pub fn {ACTION_NAME}({INPUT_DATA_PARAM}) {\n{HTTP_CALL}}\n{PATH_PARAMETER_FUNCTIONS}{QUERY_PARAMETER_FUNCTIONS}".to_string(),
    );
    tm.insert_template(
        "delete_executor",
        "pub fn {ACTION_NAME}() {\n{HTTP_CALL}}\n{PATH_PARAMETER_FUNCTIONS}".to_string(),
    );
    tm.insert_template(
        "post_patch_executor",
        "pub fn {ACTION_NAME}() {\n{BODY_HANDLING}{HTTP_CALL}}\n// {PATH_PARAM_NAMES}\n{PATH_PARAMETER_FUNCTIONS}".to_string(),
    );
    tm.insert_template(
        "path_parameter_functions",
        "fn extract_path_parameters() {\n{PATH_PARAMETER_EXTRACTION}}\n".to_string(),
    );
    tm.insert_template(
        "query_parameter_functions",
        "fn build_query_parameters() {\n{QUERY_PARAMETER_BUILDING}}\n".to_string(),
    );
    tm
}

#[test]
fn input_schema_collects_parameters_and_body() {
    let spec = parse(SPEC);
    let input = generate_input_schema(&spec, "/items/{itemId}", "post").unwrap();
    assert_eq!(text_of(input.get("$schema")), Some("https://json-schema.org/draft/2020-12/schema"));
    assert_eq!(text_of(input.get("type")), Some("object"));
    assert_eq!(input.get("additionalProperties").unwrap().as_bool(), Some(false));
    let props = input.get("properties").unwrap();
    assert_eq!(keys(props), vec!["color", "id", "itemId", "limit", "q"]);
    let item_id = props.get("itemId").unwrap();
    assert!(item_id.get("enum").is_none());
    let any_of = item_id.get("anyOf").unwrap().as_array().unwrap();
    assert_eq!(any_of.len(), 2);
    assert_eq!(text_of(any_of[1].get("const")), Some("b"));
    assert_eq!(text_of(props.get("q").unwrap().get("type")), Some("string"));
    assert_eq!(text_of(props.get("limit").unwrap().get("type")), Some("integer"));
    let color = props.get("color").unwrap();
    assert_eq!(color.get("anyOf").unwrap().as_array().unwrap().len(), 2);
    assert_eq!(strings(input.get("required").unwrap()), vec!["itemId", "limit", "id", "color"]);
}

#[test]
fn output_schema_of_object_response() {
    let spec = parse(SPEC);
    let out = generate_output_schema(&spec, "/items/{itemId}", "post").unwrap();
    assert_eq!(keys(&out), vec!["$schema", "additionalProperties", "properties", "type"]);
    let props = out.get("properties").unwrap();
    assert_eq!(keys(props), vec!["id"]);
    assert_eq!(text_of(props.get("id").unwrap().get("type")), Some("integer"));
}

#[test]
fn output_schema_of_array_response_describes_items() {
    let spec = parse(SPEC);
    let out = generate_output_schema(&spec, "/items/{itemId}", "get").unwrap();
    let items = out.get("properties").unwrap().get("items").unwrap();
    assert_eq!(text_of(items.get("type")), Some("array"));
    let item = items.get("items").unwrap();
    assert_eq!(text_of(item.get("type")), Some("object"));
    assert_eq!(keys(item.get("properties").unwrap()), vec!["id"]);
}

#[test]
fn self_referencing_schemas_are_reported_as_cycles() {
    let spec = parse(SPEC);
    let err = generate_output_schema(&spec, "/items/{itemId}", "delete").unwrap_err();
    assert!(matches!(err, GenerateActionError::SchemaError(ref m) if m == "$ref or allOf references lead back to where they started"));
    let err = generate_output_schema(&spec, "/items/{itemId}", "patch").unwrap_err();
    assert_eq!(err.to_message(), "Schema error: $ref or allOf references lead back to where they started");
    assert!(resolve_schema(&spec, &parse(r##"{"$ref": "#/components/schemas/Loop"}"##)).is_none());
}

#[test]
fn schema_errors_name_what_is_missing() {
    let spec = parse(SPEC);
    let e = generate_input_schema(&spec, "/nope", "get").unwrap_err();
    assert!(matches!(e, GenerateActionError::SchemaError(ref m) if m == "No endpoint found for path: /nope"));
    let e = generate_output_schema(&spec, "/items/{itemId}", "put").unwrap_err();
    assert!(matches!(e, GenerateActionError::SchemaError(ref m) if m == "No put method found for path: /items/{itemId}"));
    let e = generate_input_schema(&parse("{}"), "/x", "get").unwrap_err();
    assert_eq!(e.to_message(), "Schema error: No paths in schema");
}

#[test]
fn operations_found_by_id() {
    let spec = parse(SPEC);
    assert_eq!(
        find_operation_by_id(&spec, "addItem").unwrap(),
        ("/items/{itemId}".to_string(), "post".to_string())
    );
    let e = find_operation_by_id(&spec, "missing").unwrap_err();
    assert!(matches!(e, GenerateActionError::OperationNotFound(ref id) if id == "missing"));
    assert_eq!(e.to_message(), "Operation 'missing' not found in schema");
    let e = find_operation_by_id(&parse(r#"{"paths": 1}"#), "x").unwrap_err();
    assert!(matches!(e, GenerateActionError::SchemaError(ref m) if m == "Paths is not an object"));
}

#[test]
fn references_resolve_to_components() {
    let spec = parse(SPEC);
    let base = resolve_ref(&spec, "#/components/schemas/Base").unwrap();
    assert_eq!(text_of(base.get("type")), Some("object"));
    assert!(resolve_ref(&spec, "#/components/schemas/Nope").is_none());
    assert!(resolve_ref(&spec, "#/definitions/Base").is_none());
    assert!(resolve_ref(&spec, "#/components/schemas").is_none());
}

#[test]
fn enum_becomes_any_of() {
    let mut e = clone_entries(parse(r#"{"enum": ["x", 1, "y"], "type": "string"}"#).as_object().unwrap());
    convert_enum_to_anyof(&mut e);
    let j = Json::Object(e);
    assert!(j.get("enum").is_none());
    let alts = j.get("anyOf").unwrap().as_array().unwrap();
    assert_eq!(alts.len(), 2);
    assert_eq!(text_of(alts[0].get("const")), Some("x"));
    let mut only_numbers = clone_entries(parse(r#"{"enum": [1, 2]}"#).as_object().unwrap());
    convert_enum_to_anyof(&mut only_numbers);
    assert!(only_numbers.is_empty());
}

#[test]
fn custom_field_type_examples() {
    assert_eq!(determine_custom_field_type_from_action_name("getDealProducts"), "product");
    assert_eq!(determine_custom_field_type_from_action_name("addOrganization"), "organization");
    assert_eq!(determine_custom_field_type_from_action_name("deleteDealProduct"), "product");
    assert_eq!(determine_custom_field_type_from_action_name("getPersonFollowers"), "follower");
    assert_eq!(determine_custom_field_type_from_action_name("listBus"), "bus");
    assert_eq!(determine_custom_field_type_from_action_name("getÄss"), "äs");
}

#[test]
fn body_handling_lists_path_parameters() {
    let schema = parse(r#"{"type": "object"}"#);
    assert_eq!(
        generate_body_handling(&schema, "\"__none__\""),
        "    let request_body = request_body_without_empty_values(input_data, &[])?;\n"
    );
    assert_eq!(
        generate_body_handling(&schema, "\"id\""),
        "    let request_body = request_body_without_empty_values(input_data, &[\"id\"])?;\n"
    );
    assert_eq!(
        generate_body_handling(&schema, "\"a\" | \"b\""),
        "    let request_body = request_body_without_empty_values(input_data, &[\"a\\\" | \\\"b\"])?;\n"
    );
    assert_eq!(
        generate_body_handling(&parse("{}"), "\"id\""),
        "    let request_body = serde_json::Value::Null; // No request body required\n"
    );
}

#[test]
fn http_call_per_method() {
    let params = vec![parse(r#"{"in": "query", "name": "limit"}"#)];
    let (code, used) = generate_http_call("get", "/users", &params);
    assert!(used);
    assert_eq!(
        code,
        r#"    let endpoint = "/users".to_string();
    let query_params = build_query_parameters(input_data)?;
    let full_endpoint = if query_params.is_empty() {
        endpoint
    } else {
        format!("{}?{}", endpoint, query_params)
    };
    let response = client.get(&full_endpoint)?;

    Ok(response)
"#
    );
    let (code, used) = generate_http_call("delete", "/users", &Vec::new());
    assert!(!used);
    assert_eq!(code, "    let endpoint = \"/users\".to_string();\n    let response = client.delete(&endpoint)?;\n\n    Ok(response)\n");
    let (code, used) = generate_http_call("Put", "/u/{id}", &Vec::new());
    assert!(used);
    assert!(code.starts_with("    let endpoint = build_endpoint(\"/u/{id}\", &extract_path_parameters(input_data)?);\n    let response = client.put(&endpoint, &request_body)"));
    let (code, used) = generate_http_call("options", "/u", &Vec::new());
    assert!(!used);
    assert!(code.contains("format!(\"Unsupported HTTP method: {}\", \"OPTIONS\")"));
}

#[test]
fn get_executor_renders_helpers() {
    let spec = parse(SPEC);
    let code = generate_executor_code(&templates(), &spec, "getDealProducts", "/items/{itemId}", "get", "/items/{itemId}").unwrap();
    assert!(code.starts_with("pub fn product(input_data) {\n    let endpoint = build_endpoint(\"/items/{itemId}\", &extract_path_parameters(input_data)?);\n    let query_params = build_query_parameters(input_data)?;"));
    assert!(code.contains("fn extract_path_parameters() {\n    let itemId = store_data.get(\"itemId\")"));
    assert!(code.contains("fn build_query_parameters() {\n    add_query_parameter(store_data, \"limit\", &mut query_parts);\n}\n"));
}

#[test]
fn post_and_delete_executors() {
    let spec = parse(SPEC);
    let tm = templates();
    let code = generate_executor_code(&tm, &spec, "addItem", "/items/{itemId}", "post", "/items/{itemId}").unwrap();
    assert!(code.starts_with("pub fn item() {\n    let request_body = request_body_without_empty_values(input_data, &[\"itemId\"])?;\n    let endpoint = build_endpoint(\"/items/{itemId}\""));
    assert!(code.contains("// \"itemId\"\n"));
    let code = generate_executor_code(&tm, &spec, "deleteItem", "/items/{itemId}", "delete", "/items/{itemId}").unwrap();
    assert!(code.starts_with("pub fn item() {\n    let endpoint = build_endpoint(\"/items/{itemId}\", &extract_path_parameters(input_data)?);\n    let response = client.delete(&endpoint)?;"));
}

#[test]
fn executor_errors() {
    let spec = parse(SPEC);
    let e = generate_executor_code(&TemplateManager::new(), &spec, "x", "/items/{itemId}", "get", "/items/{itemId}").unwrap_err();
    assert!(matches!(e, GenerateActionError::TemplateError(ref m) if m == "Template 'path_parameter_functions' not found"));
    let e = generate_executor_code(&templates(), &spec, "x", "/other", "get", "/other").unwrap_err();
    assert!(matches!(e, GenerateActionError::SchemaError(ref m) if m == "No endpoint found for path: /other"));
}

#[test]
fn template_manager_loads_and_renders() {
    let mut tm = TemplateManager::default();
    let read = |p: &str| -> Result<String, String> {
        if p.ends_with("/post_patch_executor.rs.template") {
            Err("boom".to_string())
        } else {
            Ok(format!("from {{NAME}} at {}", p))
        }
    };
    tm.load_template("one", "dir/one.rs.template", &read).unwrap();
    assert!(tm.has_template("one"));
    assert_eq!(tm.get_template("one").unwrap(), "from {NAME} at dir/one.rs.template");
    let vars = vec![("NAME".to_string(), "x".to_string())];
    assert_eq!(tm.render("one", &vars).unwrap(), "from x at dir/one.rs.template");
    let e = tm.render("one", &Vec::new()).unwrap_err();
    assert!(matches!(e, GenerateActionError::TemplateError(ref m) if m == "Unresolved placeholder: {NAME}"));
    let e = tm.render("two", &vars).unwrap_err();
    assert_eq!(e.to_message(), "Template error: Template 'two' not found");
    let e = tm.load_standard_templates("dir", &read).unwrap_err();
    assert!(matches!(e, GenerateActionError::TemplateError(ref m) if m == "Failed to read template 'post_patch_executor': boom"));
    assert!(tm.has_template("get_executor") && tm.has_template("delete_executor"));
    let mut names: Vec<String> = tm.list_templates().into_iter().cloned().collect();
    names.sort();
    assert_eq!(names, vec!["delete_executor", "get_executor", "one"]);
}

#[test]
fn templates_without_braces_render_unchanged() {
    let mut tm = TemplateManager::new();
    tm.insert_template("plain", "no placeholders here".to_string());
    let vars = vec![("X".to_string(), "y".to_string())];
    assert_eq!(tm.render("plain", &vars).unwrap(), "no placeholders here");
}

#[test]
fn long_acyclic_reference_chains_resolve() {
    let n = 700;
    let mut comps: Vec<String> = Vec::new();
    for i in 0..n {
        comps.push(format!("\"A{}\": {{\"$ref\": \"#/components/schemas/A{}\"}}", i, i + 1));
    }
    comps.push(format!(
        "\"A{}\": {{\"type\": \"object\", \"properties\": {{\"x\": {{\"type\": \"string\"}}}}}}",
        n
    ));
    let text = format!(
        "{{\"components\": {{\"schemas\": {{{}}}}}, \"paths\": {{\"/p\": {{\"post\": {{\"requestBody\": {{\"content\": {{\"application/json\": {{\"schema\": {{\"$ref\": \"#/components/schemas/A0\"}}}}}}}}}}}}}}}}",
        comps.join(", ")
    );
    let spec = parse(&text);
    let input = generate_input_schema(&spec, "/p", "post").unwrap();
    assert_eq!(keys(input.get("properties").unwrap()), vec!["x"]);
    let resolved = resolve_schema(&spec, &parse(r##"{"$ref": "#/components/schemas/A0"}"##)).unwrap();
    assert_eq!(text_of(resolved.get("type")), Some("object"));
}

#[test]
fn shared_references_resolve_and_nested_loops_are_reported() {
    let spec = parse(
        r##"{"components": {"schemas": {
            "Pair": {"type": "object", "properties": {
                "left": {"$ref": "#/components/schemas/Leaf"},
                "right": {"$ref": "#/components/schemas/Leaf"}}},
            "Leaf": {"type": "object", "properties": {"v": {"$ref": "#/components/schemas/Text"}}},
            "Text": {"type": "string"},
            "Tree": {"type": "object", "properties": {
                "kids": {"type": "array", "items": {"$ref": "#/components/schemas/Tree"}}}}}}}"##,
    );
    let pair = resolve_refs_recursive(&spec, &parse(r##"{"$ref": "#/components/schemas/Pair"}"##)).unwrap();
    let left = pair.get("properties").unwrap().get("left").unwrap();
    let right = pair.get("properties").unwrap().get("right").unwrap();
    assert_eq!(left, right);
    assert_eq!(
        text_of(left.get("properties").unwrap().get("v").unwrap().get("type")),
        Some("string")
    );
    assert!(resolve_refs_recursive(&spec, &parse(r##"{"$ref": "#/components/schemas/Tree"}"##)).is_none());
}

#[test]
fn lookup_after_load_gives_what_was_read_and_keeps_the_rest() {
    let mut tm = TemplateManager::new();
    let read = |p: &str| -> Result<String, String> { Ok(format!("content of {}", p)) };
    tm.load_template("a", "x/a.rs.template", &read).unwrap();
    tm.load_template("b", "x/b.rs.template", &read).unwrap();
    tm.load_template("a", "y/a.rs.template", &read).unwrap();
    assert_eq!(tm.get_template("a").unwrap(), "content of y/a.rs.template");
    assert_eq!(tm.get_template("b").unwrap(), "content of x/b.rs.template");
    assert!(tm.get_template("c").is_none());
}
