use base_connector_tools::json::{Json, JsonNumber};
use base_connector_tools::openapi::{
    find_operation_by_identifier, iter_operations, operation_lookup_key, synthetic_operation_id,
    FindOperationError, OperationRef,
};
use base_connector_tools::to_snake_case;
use serde_json::Value;

fn to_json(v: &Value) -> Json {
    match v {
        Value::Null => Json::Null,
        Value::Bool(b) => Json::Bool(*b),
        Value::Number(n) => Json::Number(JsonNumber { text: n.to_string(), is_i64: n.is_i64() }),
        Value::String(s) => Json::String(s.clone()),
        Value::Array(a) => Json::Array(a.iter().map(to_json).collect()),
        Value::Object(m) => Json::Object(m.iter().map(|(k, x)| (k.clone(), to_json(x))).collect()),
    }
}

fn parse(text: &str) -> Json {
    to_json(&serde_json::from_str::<Value>(text).unwrap())
}

#[test]
fn finds_by_operation_id() {
    let spec = parse(r#"{"paths": {"/users": {"get": {"operationId": "getUsers", "tags": ["Users"]}}}}"#);
    let (path, method) = find_operation_by_identifier(&spec, "getUsers").unwrap();
    assert_eq!(path, "/users");
    assert_eq!(method, "get");
}

#[test]
fn finds_by_synthetic_id_when_no_operation_id() {
    let spec = parse(r#"{"paths": {"/items": {"get": {"summary": "List items"}}}}"#);
    let (path, method) = find_operation_by_identifier(&spec, "get_items").unwrap();
    assert_eq!(path, "/items");
    assert_eq!(method, "get");
}

#[test]
fn synthetic_id_from_path_with_params() {
    assert_eq!(
        synthetic_operation_id("get", "/accountbalances/{date}"),
        "get_accountbalances_date"
    );
}

#[test]
fn lookup_key_uses_synthetic_id_without_operation_id() {
    let ops = iter_operations(&parse(r#"{"paths": {"/x": {"get": {}}}}"#)).unwrap();
    assert_eq!(operation_lookup_key(&ops[0]), "get_x");
}

#[test]
fn duplicate_operation_id_is_ambiguous() {
    let spec = parse(
        r#"{"paths": {"/a": {"get": {"operationId": "same"}}, "/b": {"get": {"operationId": "same"}}}}"#,
    );
    let err = find_operation_by_identifier(&spec, "same").unwrap_err();
    assert!(matches!(err, FindOperationError::Ambiguous { .. }));
}

#[test]
fn ambiguous_lists_each_candidate() {
    let spec = parse(
        r#"{"paths": {"/a": {"get": {"operationId": "same"}}, "/b": {"get": {"operationId": "same"}}}}"#,
    );
    let err = find_operation_by_identifier(&spec, "same").unwrap_err();
    assert_eq!(
        err.to_message(),
        "Operation 'same' matches multiple endpoints. Use a more specific identifier:\n  - same\n  - same"
    );
}

#[test]
fn not_found_gives_hints() {
    let spec = parse(r#"{"paths": {"/a": {"get": {"operationId": "listA"}, "post": {}}}}"#);
    match find_operation_by_identifier(&spec, "nope").unwrap_err() {
        FindOperationError::NotFound { identifier, hints } => {
            assert_eq!(identifier, "nope");
            assert_eq!(hints, vec!["listA".to_string(), "post_a".to_string()]);
        }
        other => panic!("unexpected error {:?}", other),
    }
    let msg = find_operation_by_identifier(&spec, "nope").unwrap_err().to_message();
    assert_eq!(msg, "Operation 'nope' not found in schema. Try one of:\n  - listA\n  - post_a");
}

#[test]
fn not_found_without_operations_has_no_hints() {
    let spec = parse(r#"{"paths": {}}"#);
    let err = find_operation_by_identifier(&spec, "x").unwrap_err();
    assert_eq!(err.to_message(), "Operation 'x' not found in schema");
}

#[test]
fn missing_paths_is_invalid_schema() {
    let err = iter_operations(&parse(r#"{"openapi": "3.0.0"}"#)).unwrap_err();
    assert_eq!(err, FindOperationError::InvalidSchema("No paths in schema".to_string()));
    let err = iter_operations(&parse(r#"{"paths": []}"#)).unwrap_err();
    assert_eq!(err, FindOperationError::InvalidSchema("Paths is not an object".to_string()));
    assert_eq!(err.to_message(), "Paths is not an object");
}

#[test]
fn operations_skip_non_methods_and_keep_order() {
    let spec = parse(
        r#"{"paths": {"/b": {"parameters": [], "get": {"operationId": "g"}, "put": 3},
                      "/a": {"post": {}, "x-extra": {}}, "/c": 5}}"#,
    );
    let ops = iter_operations(&spec).unwrap();
    assert_eq!(
        ops,
        vec![
            OperationRef { path: "/a".into(), method: "post".into(), operation_id: None },
            OperationRef { path: "/b".into(), method: "get".into(), operation_id: Some("g".into()) },
        ]
    );
}

#[test]
fn snake_case_of_camel_case_and_symbols() {
    assert_eq!(to_snake_case("getUsers"), "get_users");
    assert_eq!(to_snake_case("__Hello  World__"), "hello_world");
    assert_eq!(to_snake_case("get /users/{id}"), "get_users_id");
    assert_eq!(to_snake_case("ABC"), "a_b_c");
    assert_eq!(to_snake_case(""), "");
}

#[test]
fn snake_case_never_has_edge_or_double_underscores() {
    for s in ["--a--b--", "X_Y", "a__B", " lead trail ", "Äpfel Birnen"] {
        let out = to_snake_case(s);
        assert!(!out.starts_with('_') && !out.ends_with('_'), "{}", out);
        assert!(!out.contains("__"), "{}", out);
    }
}

#[test]
fn unique_lookup_key_is_found() {
    let spec = parse(r#"{"paths": {"/p/{id}": {"delete": {}, "get": {"operationId": "readP"}}}}"#);
    for op in iter_operations(&spec).unwrap() {
        let key = operation_lookup_key(&op);
        let (path, method) = find_operation_by_identifier(&spec, &key).unwrap();
        assert_eq!((path, method), (op.path.clone(), op.method.clone()));
    }
}

#[test]
fn synthetic_id_documented_example() {
    assert_eq!(synthetic_operation_id("get", "/users/{id}"), "get_users_id");
}

#[test]
fn snake_case_documented_examples() {
    for s in ["getUsers", "get/Users", "get.Users", "get-Users", "get//Users"] {
        assert_eq!(to_snake_case(s), "get_users");
    }
}

#[test]
fn snake_case_of_snake_case_is_unchanged() {
    for s in ["getUsers", "__Hello  World__", "get /users/{id}", "ABC", "a1B2--c3", "", "___"] {
        let once = to_snake_case(s);
        assert_eq!(to_snake_case(&once), once);
    }
}
