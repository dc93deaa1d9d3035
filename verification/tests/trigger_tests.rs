use base_connector_tools::generate_action::error::GenerateActionError;
use base_connector_tools::generate_trigger::error::GenerateTriggerError;
use base_connector_tools::generate_trigger::executor_generator::{
    generate_executor_code, generate_http_call,
};
use base_connector_tools::generate_trigger::schema_generator::{
    find_operation_by_id, generate_input_schema, generate_output_schema, trigger_error_of,
};
use base_connector_tools::generate_trigger::template_manager::TemplateManager;
use base_connector_tools::json::{Json, JsonNumber};
use serde_json::Value;

fn to_json(v: &Value) -> Json {
    match v {
        Value::Null => Json::Null,
        Value::Bool(b) => Json::Bool(*b),
        Value::Number(n) => Json::Number(JsonNumber { text: n.to_string(), is_i64: n.is_i64() }),
        Value::String(s) => Json::String(s.clone()),
        Value::Array(a) => Json::Array(a.iter().map(to_json).collect()),
        Value::Object(m) => Json::Object(m.iter().map(|(k, x)| (k.clone(), to_json(x))).collect()),
    }
}

fn parse(text: &str) -> Json {
    to_json(&serde_json::from_str::<Value>(text).unwrap())
}

fn text_of(j: Option<&Json>) -> Option<&str> {
    j.and_then(|x| x.as_str()).map(|s| s.as_str())
}

fn keys(j: &Json) -> Vec<String> {
    j.as_object().unwrap().iter().map(|(k, _)| k.clone()).collect()
}

const SPEC: &str = r##"{
  "components": {"schemas": {"Base": {"type": "object", "properties": {"id": {"type": "integer"}}}}},
  "paths": {
    "/events": {
      "get": {"operationId": "listEvents",
              "responses": {"200": {"content": {"application/json": {"schema": {"type": "array", "items": {"type": "string"}}}}}}},
      "post": {"operationId": "makeEvent"}
    },
    "/things/{id}": {
      "get": {"operationId": "listThings",
              "parameters": [{"name": "id", "in": "path"}, {"name": "since", "in": "query"}],
              "responses": {"200": {"content": {"application/json": {"schema": {"type": "array", "items": {"$ref": "#/components/schemas/Base"}}}}}}}
    },
    "/raw": {
      "get": {"operationId": "raw",
              "responses": {"201": {"content": {"application/json": {"schema": {"x-connector-untyped-response": true, "description": "Raw data"}}}}}}
    },
    "/one": {
      "get": {"responses": {"202": {"content": {"application/json": {"schema": {"$ref": "#/components/schemas/Base"}}}}}}
    }
  }
}"##;

fn templates() -> TemplateManager {
    let mut tm = TemplateManager::new();
    tm.insert_template(
        "trigger_executor",
        "pub fn fetch_events() {\n{HTTP_CALL}{PATH_PARAMETER_EXTRACTION}{QUERY_PARAMETER_BUILDING}}".to_string(),
    );
    tm
}

#[test]
fn trigger_input_schema_has_no_properties() {
    let input = generate_input_schema(&parse("{}"), "/x", "get").unwrap();
    assert_eq!(keys(&input), vec!["$schema", "additionalProperties", "properties", "required", "type"]);
    assert!(input.get("properties").unwrap().as_object().unwrap().is_empty());
    assert!(input.get("required").unwrap().as_array().unwrap().is_empty());
    assert_eq!(input.get("additionalProperties").unwrap().as_bool(), Some(false));
}

#[test]
fn array_of_primitives_becomes_value() {
    let out = generate_output_schema(&parse(SPEC), "/events", "get").unwrap();
    let props = out.get("properties").unwrap();
    assert_eq!(keys(props), vec!["value"]);
    assert_eq!(text_of(props.get("value").unwrap().get("type")), Some("string"));
    assert_eq!(out.get("additionalProperties").unwrap().as_bool(), Some(false));
}

#[test]
fn array_of_objects_describes_one_item() {
    let out = generate_output_schema(&parse(SPEC), "/things/{id}", "get").unwrap();
    let props = out.get("properties").unwrap();
    assert_eq!(keys(props), vec!["id"]);
}

#[test]
fn plain_object_response_uses_its_properties() {
    let out = generate_output_schema(&parse(SPEC), "/one", "get").unwrap();
    assert_eq!(keys(out.get("properties").unwrap()), vec!["id"]);
}

#[test]
fn untyped_response_is_open_with_description() {
    let out = generate_output_schema(&parse(SPEC), "/raw", "get").unwrap();
    assert_eq!(out.get("additionalProperties").unwrap().as_bool(), Some(true));
    assert_eq!(text_of(out.get("description")), Some("Raw data"));
    assert!(out.get("properties").unwrap().as_object().unwrap().is_empty());
}

#[test]
fn trigger_errors() {
    let e = generate_output_schema(&parse(SPEC), "/events", "delete").unwrap_err();
    assert!(matches!(e, GenerateTriggerError::SchemaError(ref m) if m == "No delete method found for path: /events"));
    assert_eq!(
        find_operation_by_id(&parse(SPEC), "listThings").unwrap(),
        ("/things/{id}".to_string(), "get".to_string())
    );
    let e = find_operation_by_id(&parse(SPEC), "nope").unwrap_err();
    assert_eq!(e.to_message(), "Operation 'nope' not found in schema");
    let e = trigger_error_of(GenerateActionError::IoError("disk".to_string()));
    assert!(matches!(e, GenerateTriggerError::SchemaError(ref m) if m == "IO error: disk"));
}

#[test]
fn trigger_executor_for_plain_get() {
    let code = generate_executor_code(&templates(), &parse(SPEC), "list_events", "/events", "get", "/events").unwrap();
    assert_eq!(
        code,
        "pub fn fetch_events() {\n    let endpoint = \"/events\".to_string();\n    let full_endpoint = endpoint;\n}"
    );
}

#[test]
fn trigger_executor_with_path_and_query() {
    let code = generate_executor_code(&templates(), &parse(SPEC), "t", "/things/{id}", "get", "/things/{id}").unwrap();
    assert!(code.starts_with("pub fn fetch_events() {\n    let endpoint = build_endpoint(\"/things/{id}\", &extract_path_parameters(&store_data)?);\n    let query_params = build_query_parameters(&store_data)?;"));
    assert!(code.contains("    let id = store_data.get(\"id\")"));
    assert!(code.ends_with("    add_query_parameter(store_data, \"since\", &mut query_parts);\n}"));
}

#[test]
fn triggers_refuse_other_methods() {
    let code = generate_http_call("post", "/events", &Vec::new());
    assert!(code.contains("Unsupported HTTP method for trigger: {}\", \"POST\""));
    let e = generate_executor_code(&TemplateManager::new(), &parse(SPEC), "t", "/events", "get", "/events").unwrap_err();
    assert!(matches!(e, GenerateTriggerError::TemplateError(ref m) if m == "Template 'trigger_executor' not found"));
}

#[test]
fn trigger_templates_load_through_reader() {
    let mut tm = TemplateManager::default();
    let read = |p: &str| -> Result<String, String> { Ok(format!("// {}", p)) };
    tm.load_standard_templates("tpl", &read).unwrap();
    assert_eq!(tm.render("trigger_executor", &Vec::new()).unwrap(), "// tpl/trigger_executor.rs.template");
    let failing = |_p: &str| -> Result<String, String> { Err("gone".to_string()) };
    let e = tm.load_template("x", "x.rs", &failing).unwrap_err();
    assert_eq!(e.to_message(), "Template error: Failed to read template 'x': gone");
}
