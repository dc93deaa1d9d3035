//! Input and output JSON Schemas of a trigger. The schema logic of actions
//! is shared; a trigger's output describes one event, so an array response
//! is described by its items.
use vstd::prelude::*;

use super::error::{GenerateTriggerError, GenerateTriggerErrorV};
use crate::generate_action::error::{
    action_error_message, GenerateActionError, GenerateActionErrorV,
};
use crate::generate_action::schema_generator::{
    extract_properties, find_by_id_spec, get_response_schema, operation_object,
    operation_object_exec, properties_of, resolve_refs_recursive,
    resolve_schema, resolved, resolved_deep, response_schema_of, schema_header, ref_cycle,
};
use crate::json::{entries_view, get_bool, get_str, obj_from, obj_get, obj_insert, obj_lookup,
    obj_set, Json, JsonV};
use crate::text::str_eq;

verus! {

/// The trigger error standing for an action error: operation-not-found and
/// schema errors keep their kind; any other becomes a schema error with the
/// action error's message.
pub open spec fn trigger_error_view(e: GenerateActionErrorV) -> GenerateTriggerErrorV {
    match e {
        GenerateActionErrorV::OperationNotFound(op) => GenerateTriggerErrorV::OperationNotFound(op),
        GenerateActionErrorV::SchemaError(m) => GenerateTriggerErrorV::SchemaError(m),
        _ => GenerateTriggerErrorV::SchemaError(action_error_message(e)),
    }
}

/// Convert an action error into the trigger error that stands for it.
pub fn trigger_error_of(e: GenerateActionError) -> (r: GenerateTriggerError)
    ensures
        r@ == trigger_error_view(e@),
{
    match e {
        GenerateActionError::OperationNotFound(op) => GenerateTriggerError::OperationNotFound(op),
        GenerateActionError::SchemaError(m) => GenerateTriggerError::SchemaError(m),
        other => GenerateTriggerError::SchemaError(other.to_message()),
    }
}

/// Find operation by ID in the schema, as actions do.
pub fn find_operation_by_id(schema: &Json, operation_id: &str) -> (r: Result<
    (String, String),
    GenerateTriggerError,
>)
    ensures
        match find_by_id_spec(schema@, operation_id@) {
            Ok(Some((p, m))) => r matches Ok((rp, rm)) && rp@ == p && rm@ == m,
            Ok(None) => r matches Err(GenerateTriggerError::OperationNotFound(id)) && id@
                == operation_id@,
            Err(msg) => r matches Err(GenerateTriggerError::SchemaError(e)) && e@ == msg,
        },
{
    match crate::generate_action::schema_generator::find_operation_by_id(schema, operation_id) {
        Ok(found) => Ok(found),
        Err(e) => Err(trigger_error_of(e)),
    }
}

/// The input schema of every trigger: an object with no properties.
pub open spec fn trigger_input_schema() -> JsonV {
    JsonV::Object(
        obj_insert(
            obj_insert(schema_header(), "properties"@, JsonV::Object(Seq::empty())),
            "required"@,
            JsonV::Array(Seq::empty()),
        ),
    )
}

/// Generate input schema for a trigger. Triggers poll on stored state and
/// take no user input, so the schema has no properties.
pub fn generate_input_schema(_schema: &Json, _path: &str, _method: &str) -> (r: Result<
    Json,
    GenerateTriggerError,
>)
    ensures
        r matches Ok(j) && j@ == trigger_input_schema(),
{
    let mut doc = crate::generate_action::schema_generator::schema_header_exec();
    obj_set(&mut doc, "properties", Json::empty_object());
    let no_names: Vec<Json> = Vec::new();
    assert(crate::json::values_view(no_names@) =~= Seq::<JsonV>::empty());
    let arr = Json::array(no_names);
    obj_set(&mut doc, "required", arr);
    Ok(Json::object(doc))
}

/// The properties of one event. For an array response these come from its
/// items: an object item's properties, else the item itself under `value`;
/// for any other object response, the response's own properties.
pub open spec fn event_properties(schema: JsonV, top: JsonV, response: JsonV) -> Option<
    Seq<(Seq<char>, JsonV)>,
> {
    match top {
        JsonV::Object(obj) => if get_str(top, "type"@) == Some("array"@) {
            match obj_get(obj, "items"@) {
                Some(items) => match resolved(schema, items) {
                    None => None,
                    Some(ir) => match resolved_deep(schema, ir) {
                        None => None,
                        Some(full) => match full {
                            JsonV::Object(io) => if obj_get(io, "properties"@) is Some {
                                properties_of(schema, full)
                            } else {
                                Some(obj_insert(Seq::empty(), "value"@, full))
                            },
                            _ => Some(obj_insert(Seq::empty(), "value"@, full)),
                        },
                    },
                },
                None => Some(Seq::empty()),
            }
        } else {
            properties_of(schema, response)
        },
        _ => Some(Seq::empty()),
    }
}

/// The output document: open (`additionalProperties: true`, with the
/// response's non-empty description) when there are no properties and the
/// response is marked untyped, else closed.
pub open spec fn trigger_output_doc(resolved: JsonV, props: Seq<(Seq<char>, JsonV)>) -> Seq<
    (Seq<char>, JsonV),
> {
    let base = obj_from(
        seq![
            ("$schema"@, JsonV::Str("https://json-schema.org/draft/2020-12/schema"@)),
            ("type"@, JsonV::Str("object"@)),
        ],
    );
    let untyped = get_bool(resolved, "x-connector-untyped-response"@) == Some(true);
    let doc = if props.len() == 0 && untyped {
        let open_doc = obj_insert(base, "additionalProperties"@, JsonV::Bool(true));
        match get_str(resolved, "description"@) {
            Some(d) => if d.len() > 0 {
                obj_insert(open_doc, "description"@, JsonV::Str(d))
            } else {
                open_doc
            },
            None => open_doc,
        }
    } else {
        obj_insert(base, "additionalProperties"@, JsonV::Bool(false))
    };
    obj_insert(doc, "properties"@, JsonV::Object(props))
}

/// The output schema of the trigger at `path` and `method`, or the message
/// of the schema error.
pub open spec fn trigger_output_of(schema: JsonV, path: Seq<char>, method: Seq<char>) -> Result<
    JsonV,
    Seq<char>,
> {
    match operation_object(schema, path, method) {
        Err(e) => Err(e),
        Ok(op) => match response_schema_of(schema, op) {
            None => Err(ref_cycle()),
            Some(rs) => match resolved(schema, rs) {
                None => Err(ref_cycle()),
                Some(resolved) => match event_properties(schema, resolved, rs) {
                    None => Err(ref_cycle()),
                    Some(props) => Ok(JsonV::Object(trigger_output_doc(resolved, props))),
                },
            },
        },
    }
}

fn event_properties_exec(schema: &Json, resolved: &Json, response: &Json) -> (r: Option<
    Vec<(String, Json)>,
>)
    ensures
        match event_properties(schema@, resolved@, response@) {
            Some(p) => r matches Some(e) && entries_view(e@) == p,
            None => r is None,
        },
{
    let mut props: Vec<(String, Json)> = Vec::new();
    assert(entries_view(props@) =~= Seq::<(Seq<char>, JsonV)>::empty());
    match resolved {
        Json::Object(obj) => {
            proof {
                crate::json::lemma_object_view(*obj);
            }
            let is_array = match resolved.get("type") {
                Some(Json::String(t)) => str_eq(t.as_str(), "array"),
                _ => false,
            };
            if is_array {
                match obj_lookup(obj, "items") {
                    Some(items) => {
                        let ir = match resolve_schema(schema, items) {
                            None => {
                                return None;
                            },
                            Some(v) => v,
                        };
                        let full = match resolve_refs_recursive(schema, &ir) {
                            None => {
                                return None;
                            },
                            Some(v) => v,
                        };
                        let has_props = match &full {
                            Json::Object(io) => {
                                proof {
                                    crate::json::lemma_object_view(*io);
                                }
                                obj_lookup(io, "properties").is_some()
                            },
                            _ => false,
                        };
                        if has_props {
                            extract_properties(schema, &full)
                        } else {
                            obj_set(&mut props, "value", full);
                            Some(props)
                        }
                    },
                    None => Some(props),
                }
            } else {
                extract_properties(schema, response)
            }
        },
        _ => Some(props),
    }
}

/// Generate output schema for a trigger: the properties of one event.
pub fn generate_output_schema(schema: &Json, path: &str, method: &str) -> (r: Result<
    Json,
    GenerateTriggerError,
>)
    ensures
        match trigger_output_of(schema@, path@, method@) {
            Ok(v) => r matches Ok(j) && j@ == v,
            Err(m) => r matches Err(GenerateTriggerError::SchemaError(e)) && e@ == m,
        },
{
    let op = match operation_object_exec(schema, path, method) {
        Err(e) => {
            return Err(trigger_error_of(e));
        },
        Ok(op) => op,
    };
    let rs = match get_response_schema(schema, op) {
        None => {
            return Err(GenerateTriggerError::SchemaError("$ref or allOf references lead back to where they started".to_owned()));
        },
        Some(rs) => rs,
    };
    let resolved = match resolve_schema(schema, &rs) {
        None => {
            return Err(GenerateTriggerError::SchemaError("$ref or allOf references lead back to where they started".to_owned()));
        },
        Some(v) => v,
    };
    let props = match event_properties_exec(schema, &resolved, &rs) {
        None => {
            return Err(GenerateTriggerError::SchemaError("$ref or allOf references lead back to where they started".to_owned()));
        },
        Some(p) => p,
    };
    let mut doc: Vec<(String, Json)> = Vec::new();
    assert(entries_view(doc@) =~= Seq::<(Seq<char>, JsonV)>::empty());
    obj_set(&mut doc, "$schema", Json::from_str("https://json-schema.org/draft/2020-12/schema"));
    obj_set(&mut doc, "type", Json::from_str("object"));
    proof {
        let e0 = Seq::<(Seq<char>, JsonV)>::empty();
        let a = ("$schema"@, JsonV::Str("https://json-schema.org/draft/2020-12/schema"@));
        let b = ("type"@, JsonV::Str("object"@));
        assert(seq![a, b].drop_last() =~= seq![a]);
        assert(seq![a].drop_last() =~= e0);
        assert(obj_from(e0) == e0);
        assert(obj_from(seq![a]) == obj_insert(e0, a.0, a.1));
    }
    let untyped = match resolved.get("x-connector-untyped-response") {
        Some(Json::Bool(b)) => *b,
        _ => false,
    };
    if props.len() == 0 && untyped {
        obj_set(&mut doc, "additionalProperties", Json::Bool(true));
        match resolved.get("description") {
            Some(Json::String(d)) => {
                if crate::text::chars_of(d.as_str()).len() > 0 {
                    obj_set(&mut doc, "description", Json::String(d.clone()));
                }
            },
            _ => {},
        }
    } else {
        obj_set(&mut doc, "additionalProperties", Json::Bool(false));
    }
    obj_set(&mut doc, "properties", Json::object(props));
    Ok(Json::object(doc))
}

} // verus!
