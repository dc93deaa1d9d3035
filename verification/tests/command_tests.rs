use base_connector_tools::commands::{
    action_file_path, add_name_once, chosen_name, confirms_overwrite, endpoint_line,
    endpoint_listing_line, file_in, find_operation_with_id, implementation_kind,
    implementation_of, is_remote_source, is_snake_case_name, kind_icon,
    metadata_operation_matches, metadata_text_matches, operation_description, operations_with_ids, trigger_directory,
    trigger_file_path, trigger_metadata, ImplementationKind, ImplementationType, ListedOperation,
};
use base_connector_tools::json::{Json, JsonNumber};
use base_connector_tools::openapi::OperationRef;
use serde_json::Value;

fn to_json(v: &Value) -> Json {
    match v {
        Value::Null => Json::Null,
        Value::Bool(b) => Json::Bool(*b),
        Value::Number(n) => Json::Number(JsonNumber { text: n.to_string(), is_i64: n.is_i64() }),
        Value::String(s) => Json::String(s.clone()),
        Value::Array(a) => Json::Array(a.iter().map(to_json).collect()),
        Value::Object(m) => Json::Object(m.iter().map(|(k, x)| (k.clone(), to_json(x))).collect()),
    }
}

fn parse(text: &str) -> Json {
    to_json(&serde_json::from_str::<Value>(text).unwrap())
}

const SPEC: &str = r#"{"paths": {
  "/b": {"get": {"operationId": "getB", "summary": "Read B"}, "post": {"description": "Make B"}},
  "/a": {"delete": {"operationId": "delA", "description": "Remove A"}},
  "/c": "not an item"
}}"#;

#[test]
fn remote_sources() {
    assert!(is_remote_source("https://x.io/spec.yaml"));
    assert!(is_remote_source("http://x.io"));
    assert!(!is_remote_source("./openapi.yaml"));
    assert!(!is_remote_source("ftp://x"));
}

#[test]
fn descriptions_prefer_summary() {
    let spec = parse(SPEC);
    assert_eq!(operation_description(&spec, "/b", "get"), "Read B");
    assert_eq!(operation_description(&spec, "/b", "post"), "Make B");
    assert_eq!(operation_description(&spec, "/b", "put"), "No description available");
}

#[test]
fn listed_operations_with_ids() {
    let ops = operations_with_ids(&parse(SPEC)).unwrap();
    assert_eq!(
        ops,
        vec![
            ListedOperation {
                operation_id: "delA".into(),
                method: "delete".into(),
                path: "/a".into(),
                description: "Remove A".into()
            },
            ListedOperation {
                operation_id: "getB".into(),
                method: "get".into(),
                path: "/b".into(),
                description: "Read B".into()
            },
        ]
    );
    assert_eq!(operations_with_ids(&parse("{}")).unwrap_err(), "No paths in schema");
}

#[test]
fn discover_finds_by_id() {
    let spec = parse(SPEC);
    assert_eq!(find_operation_with_id(&spec, "getB").unwrap(), ("/b".to_string(), "get".to_string()));
    assert_eq!(
        find_operation_with_id(&spec, "zzz").unwrap_err(),
        "Operation with ID 'zzz' not found in schema"
    );
}

#[test]
fn implementation_classification() {
    let a = vec!["x".to_string()];
    let t = vec!["y".to_string()];
    assert_eq!(
        implementation_of(a.clone(), t.clone()),
        ImplementationType::Both { action_names: a.clone(), trigger_names: t.clone() }
    );
    assert_eq!(implementation_of(a.clone(), Vec::new()), ImplementationType::Action(a.clone()));
    assert_eq!(implementation_of(Vec::new(), t.clone()), ImplementationType::Trigger(t.clone()));
    assert_eq!(implementation_of(Vec::new(), Vec::new()), ImplementationType::NotImplemented);
    assert_eq!(implementation_kind(true, false), ImplementationKind::Action);
    assert_eq!(implementation_kind(false, false), ImplementationKind::NotImplemented);
    assert_eq!(kind_icon(&implementation_kind(true, true)), "🟣");
}

#[test]
fn names_are_added_once() {
    let mut names = vec!["a".to_string()];
    add_name_once(&mut names, "a".to_string());
    add_name_once(&mut names, "b".to_string());
    assert_eq!(names, vec!["a".to_string(), "b".to_string()]);
}

#[test]
fn listing_lines() {
    let both = ImplementationType::Both {
        action_names: vec!["a1".into(), "a2".into()],
        trigger_names: vec!["t1".into()],
    };
    assert_eq!(
        endpoint_line(&both, "getB", "GET", "/b", "Read B"),
        "  🟣 getB [action: a1, a2, trigger: t1] - GET /b - Read B"
    );
    assert_eq!(
        endpoint_line(&ImplementationType::NotImplemented, "getB", "GET", "/b", "Read B"),
        "  ⚪ getB - GET /b - Read B"
    );
    let op = OperationRef { path: "/b".into(), method: "get".into(), operation_id: None };
    assert_eq!(
        endpoint_listing_line(&ImplementationType::Trigger(vec!["t".into()]), "get_b", &op, "d"),
        "  🔵 get_b [trigger: t] - GET /b - d"
    );
}

#[test]
fn metadata_round_trip() {
    let m = trigger_metadata("getB", "/b", "get", "get_b");
    assert!(metadata_operation_matches(&m, "getB"));
    assert!(!metadata_operation_matches(&m, "getC"));
    let keys: Vec<String> = m.as_object().unwrap().iter().map(|(k, _)| k.clone()).collect();
    assert_eq!(keys, vec!["method", "operation_id", "path", "trigger_name"]);
    assert!(!metadata_operation_matches(&parse(r#"{"operation_id": 3}"#), "3"));
}

#[test]
fn generated_file_locations() {
    assert_eq!(action_file_path("get_b"), "src/actions/get_b/action.rs");
    assert_eq!(trigger_file_path("get_b"), "src/triggers/get_b/fetch_events.rs");
    assert_eq!(trigger_directory("x"), "src/triggers/x");
    assert_eq!(file_in("src/triggers/x", "input_schema.json"), "src/triggers/x/input_schema.json");
}

#[test]
fn names_and_answers() {
    assert!(is_snake_case_name("list_users_2"));
    assert!(!is_snake_case_name("listUsers"));
    assert!(!is_snake_case_name("list-users"));
    assert_eq!(chosen_name(Some("my_name"), "getUsers"), Some("my_name".to_string()));
    assert_eq!(chosen_name(Some("Bad"), "getUsers"), None);
    assert_eq!(chosen_name(None, "getUsers"), Some("get_users".to_string()));
    assert!(confirms_overwrite(" YES \n"));
    assert!(confirms_overwrite("y"));
    assert!(!confirms_overwrite("no"));
    assert!(!confirms_overwrite("yess"));
}

#[test]
fn metadata_text_is_read() {
    assert!(metadata_text_matches("{\"operation_id\": \"getB\"}", "getB"));
    assert!(!metadata_text_matches("{\"operation_id\": \"getB\"}", "getC"));
    assert!(!metadata_text_matches("not json", "getB"));
}
