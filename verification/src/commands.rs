//! The decisions of the command-line tools: where generated files go, what a
//! listing line says, which operations are implemented, and which names and
//! answers are accepted. Reading, fetching and printing stay with the tools.
use vstd::prelude::*;

use crate::generate_action::schema_generator::find_in_paths;
use crate::json::{entries_view, get_str, jget, jobj, obj_from, obj_insert, obj_set, Json, JsonV};
use crate::openapi::{strings_view, OperationRef};
use crate::postman_text::join_with;
use crate::text::{
    ascii_lower, ascii_upper, is_ascii_text,
    append_str, char_is_lowercase, chars_of, concat_strs, is_lowercase_char, lowercase_str,
    starts_with, starts_with_exec, str_eq, str_to_lowercase, str_to_uppercase, string_of, trim_ws,
    trim_ws_exec, uppercase_str,
};
use crate::{snake_case, to_snake_case};

verus! {

// ---------------------------------------------------------------------------
// Sources
// ---------------------------------------------------------------------------

/// A source is fetched over HTTP when it is an `http://` or `https://` URL,
/// else read as a local file.
pub open spec fn is_remote(source: Seq<char>) -> bool {
    starts_with(source, "http://"@) || starts_with(source, "https://"@)
}

/// Whether `source` is fetched over HTTP rather than read from a file.
pub fn is_remote_source(source: &str) -> (r: bool)
    ensures
        r == is_remote(source@),
{
    let s = chars_of(source);
    starts_with_exec(&s, &chars_of("http://")) || starts_with_exec(&s, &chars_of("https://"))
}

// ---------------------------------------------------------------------------
// Descriptions of operations
// ---------------------------------------------------------------------------

/// The description shown for an operation: its `summary`, else its
/// `description`, else a fixed text.
pub open spec fn description_of(schema: JsonV, path: Seq<char>, method: Seq<char>) -> Seq<char> {
    let op = match jget(schema, "paths"@) {
        Some(paths) => match jget(paths, path) {
            Some(item) => jget(item, method),
            None => None,
        },
        None => None,
    };
    match op {
        Some(o) => match get_str(o, "summary"@) {
            Some(s) => s,
            None => match get_str(o, "description"@) {
                Some(d) => d,
                None => "No description available"@,
            },
        },
        None => "No description available"@,
    }
}

/// The description shown for the operation at `path` and `method`.
pub fn operation_description(schema: &Json, path: &str, method: &str) -> (r: String)
    ensures
        r@ == description_of(schema@, path@, method@),
{
    let op = match schema.get("paths") {
        Some(paths) => match paths.get(path) {
            Some(item) => item.get(method),
            None => None,
        },
        None => None,
    };
    match op {
        Some(o) => match o.get("summary") {
            Some(Json::String(s)) => s.clone(),
            _ => match o.get("description") {
                Some(Json::String(d)) => d.clone(),
                _ => "No description available".to_owned(),
            },
        },
        None => "No description available".to_owned(),
    }
}

// ---------------------------------------------------------------------------
// Implemented operations
// ---------------------------------------------------------------------------

/// Under which names an operation is already implemented.
#[derive(Debug, Clone, PartialEq, Eq)]
pub enum ImplementationType {
    NotImplemented,
    Action(Vec<String>),
    Trigger(Vec<String>),
    Both { action_names: Vec<String>, trigger_names: Vec<String> },
}

/// What the names found say: actions, triggers, both, or neither.
pub fn implementation_of(action_names: Vec<String>, trigger_names: Vec<String>) -> (r:
    ImplementationType)
    ensures
        action_names.len() > 0 && trigger_names.len() > 0 ==> (r matches ImplementationType::Both {
            action_names: a,
            trigger_names: t,
        } && a@ == action_names@ && t@ == trigger_names@),
        action_names.len() > 0 && trigger_names.len() == 0 ==> (r matches ImplementationType::Action(
            a,
        ) && a@ == action_names@),
        action_names.len() == 0 && trigger_names.len() > 0 ==> (r matches ImplementationType::Trigger(
            t,
        ) && t@ == trigger_names@),
        action_names.len() == 0 && trigger_names.len() == 0 ==> r is NotImplemented,
{
    if action_names.len() > 0 && trigger_names.len() > 0 {
        ImplementationType::Both { action_names, trigger_names }
    } else if action_names.len() > 0 {
        ImplementationType::Action(action_names)
    } else if trigger_names.len() > 0 {
        ImplementationType::Trigger(trigger_names)
    } else {
        ImplementationType::NotImplemented
    }
}

/// Adds `name` to `names` unless it is already there.
pub fn add_name_once(names: &mut Vec<String>, name: String)
    ensures
        strings_view(old(names)@).contains(name@) ==> final(names)@ == old(names)@,
        !strings_view(old(names)@).contains(name@) ==> final(names)@ == old(names)@.push(name),
{
    let nc = chars_of(name.as_str());
    if !crate::postman_text::strings_contain(names, &nc) {
        names.push(name);
    }
}

/// Whether a directory's metadata records the operation `operation_id`.
pub fn metadata_operation_matches(metadata: &Json, operation_id: &str) -> (r: bool)
    ensures
        r == (get_str(metadata@, "operation_id"@) == Some(operation_id@)),
{
    match metadata.get("operation_id") {
        Some(Json::String(s)) => str_eq(s.as_str(), operation_id),
        _ => false,
    }
}

/// Whether a metadata file's text is JSON that records the operation
/// `operation_id`.
pub fn metadata_text_matches(text: &str, operation_id: &str) -> (r: bool)
    ensures
        r == (crate::documents::json_text_value(text@) matches Some(v) && get_str(
            v,
            "operation_id"@,
        ) == Some(operation_id@)),
{
    match crate::documents::parse_json_text(text) {
        Ok(v) => metadata_operation_matches(&v, operation_id),
        Err(_) => false,
    }
}

/// Names joined by `, `.
pub open spec fn comma_list(names: Seq<Seq<char>>) -> Seq<char> {
    join_with(names, ", "@)
}

fn comma_list_exec(names: &Vec<String>) -> (r: String)
    ensures
        r@ == comma_list(strings_view(names@)),
{
    let ghost nv = strings_view(names@);
    let mut out: Vec<char> = Vec::new();
    let mut i: usize = 0;
    assert(nv.take(0) =~= Seq::<Seq<char>>::empty());
    while i < names.len()
        invariant
            i <= names.len(),
            nv == strings_view(names@),
            out@ == join_with(nv.take(i as int), ", "@),
        decreases names.len() - i,
    {
        assert(nv.take(i + 1).drop_last() =~= nv.take(i as int));
        assert(nv.take(i + 1).last() == names@[i as int]@);
        if i > 0 {
            append_str(&mut out, ", ");
        }
        append_str(&mut out, names[i].as_str());
        i = i + 1;
    }
    assert(nv.take(names.len() as int) =~= nv);
    string_of(&out)
}

/// The status icon of an implementation.
pub open spec fn icon_of(t: ImplementationType) -> Seq<char> {
    match t {
        ImplementationType::Action(_) => "🟢"@,
        ImplementationType::Trigger(_) => "🔵"@,
        ImplementationType::Both { .. } => "🟣"@,
        ImplementationType::NotImplemented => "⚪"@,
    }
}

/// The bracketed names of an implementation (empty when there is none).
pub open spec fn name_info_of(t: ImplementationType) -> Seq<char> {
    match t {
        ImplementationType::Action(a) => "[action: "@ + comma_list(strings_view(a@)) + "]"@,
        ImplementationType::Trigger(t) => "[trigger: "@ + comma_list(strings_view(t@)) + "]"@,
        ImplementationType::Both { action_names, trigger_names } => "[action: "@ + comma_list(
            strings_view(action_names@),
        ) + ", trigger: "@ + comma_list(strings_view(trigger_names@)) + "]"@,
        ImplementationType::NotImplemented => Seq::empty(),
    }
}

/// A line of the endpoint listing: icon, identifier, the names implementing
/// it where there are any, the uppercase method, the path and the description.
pub open spec fn endpoint_line_text(
    t: ImplementationType,
    lookup_id: Seq<char>,
    method_upper: Seq<char>,
    path: Seq<char>,
    description: Seq<char>,
) -> Seq<char> {
    let info = name_info_of(t);
    if info.len() == 0 {
        "  "@ + icon_of(t) + " "@ + lookup_id + " - "@ + method_upper + " "@ + path + " - "@
            + description
    } else {
        "  "@ + icon_of(t) + " "@ + lookup_id + " "@ + info + " - "@ + method_upper + " "@ + path
            + " - "@ + description
    }
}

fn icon_exec(t: &ImplementationType) -> (r: String)
    ensures
        r@ == icon_of(*t),
{
    match t {
        ImplementationType::Action(_) => "🟢".to_owned(),
        ImplementationType::Trigger(_) => "🔵".to_owned(),
        ImplementationType::Both { .. } => "🟣".to_owned(),
        ImplementationType::NotImplemented => "⚪".to_owned(),
    }
}

fn name_info_exec(t: &ImplementationType) -> (r: String)
    ensures
        r@ == name_info_of(*t),
{
    match t {
        ImplementationType::Action(a) => {
            let mut v = chars_of("[action: ");
            append_str(&mut v, comma_list_exec(a).as_str());
            append_str(&mut v, "]");
            string_of(&v)
        },
        ImplementationType::Trigger(tr) => {
            let mut v = chars_of("[trigger: ");
            append_str(&mut v, comma_list_exec(tr).as_str());
            append_str(&mut v, "]");
            string_of(&v)
        },
        ImplementationType::Both { action_names, trigger_names } => {
            let mut v = chars_of("[action: ");
            append_str(&mut v, comma_list_exec(action_names).as_str());
            append_str(&mut v, ", trigger: ");
            append_str(&mut v, comma_list_exec(trigger_names).as_str());
            append_str(&mut v, "]");
            string_of(&v)
        },
        ImplementationType::NotImplemented => String::new(),
    }
}

/// A line of the endpoint listing, with the method already in uppercase.
pub fn endpoint_line(
    t: &ImplementationType,
    lookup_id: &str,
    method_upper: &str,
    path: &str,
    description: &str,
) -> (r: String)
    ensures
        r@ == endpoint_line_text(*t, lookup_id@, method_upper@, path@, description@),
{
    let info = name_info_exec(t);
    let mut v = chars_of("  ");
    append_str(&mut v, icon_exec(t).as_str());
    append_str(&mut v, " ");
    append_str(&mut v, lookup_id);
    if chars_of(info.as_str()).len() > 0 {
        append_str(&mut v, " ");
        append_str(&mut v, info.as_str());
    }
    append_str(&mut v, " - ");
    append_str(&mut v, method_upper);
    append_str(&mut v, " ");
    append_str(&mut v, path);
    append_str(&mut v, " - ");
    append_str(&mut v, description);
    string_of(&v)
}

/// The listing line of an operation.
pub fn endpoint_listing_line(
    t: &ImplementationType,
    lookup_id: &str,
    op: &OperationRef,
    description: &str,
) -> (r: String)
    ensures
        r@ == endpoint_line_text(
            *t,
            lookup_id@,
            uppercase_str(op.method@),
            op.path@,
            description@,
        ),
        is_ascii_text(op.method@) ==> uppercase_str(op.method@) == op.method@.map_values(
            |c: char| ascii_upper(c),
        ),
{
    let method_upper = str_to_uppercase(op.method.as_str());
    endpoint_line(t, lookup_id, method_upper.as_str(), op.path.as_str(), description)
}

// ---------------------------------------------------------------------------
// Operations with ids
// ---------------------------------------------------------------------------

/// An operation that has an `operationId`, with its description.
#[derive(Debug, Clone, PartialEq, Eq)]
pub struct ListedOperation {
    pub operation_id: String,
    pub method: String,
    pub path: String,
    pub description: String,
}

/// The description of an operation object: `summary`, else `description`,
/// else a fixed text.
pub open spec fn op_description(op: JsonV) -> Seq<char> {
    match get_str(op, "summary"@) {
        Some(s) => s,
        None => match get_str(op, "description"@) {
            Some(d) => d,
            None => "No description available"@,
        },
    }
}

/// The operations of one path item that have a string `operationId`, in
/// order, as (id, method, path, description).
pub open spec fn listed_in_methods(path: Seq<char>, methods: Seq<(Seq<char>, JsonV)>) -> Seq<
    (Seq<char>, Seq<char>, Seq<char>, Seq<char>),
>
    decreases methods.len(),
{
    if methods.len() == 0 {
        Seq::empty()
    } else {
        let prev = listed_in_methods(path, methods.drop_last());
        let (m, op) = methods.last();
        match get_str(op, "operationId"@) {
            Some(id) => prev.push((id, m, path, op_description(op))),
            None => prev,
        }
    }
}

/// The operations with ids of all path items, in order.
pub open spec fn listed_in_paths(paths: Seq<(Seq<char>, JsonV)>) -> Seq<
    (Seq<char>, Seq<char>, Seq<char>, Seq<char>),
>
    decreases paths.len(),
{
    if paths.len() == 0 {
        Seq::empty()
    } else {
        let prev = listed_in_paths(paths.drop_last());
        match paths.last().1 {
            JsonV::Object(methods) => prev + listed_in_methods(paths.last().0, methods),
            _ => prev,
        }
    }
}

/// The model of a listed operation.
pub open spec fn listed_view(v: Seq<ListedOperation>) -> Seq<
    (Seq<char>, Seq<char>, Seq<char>, Seq<char>),
> {
    Seq::new(
        v.len(),
        |i: int| (v[i].operation_id@, v[i].method@, v[i].path@, v[i].description@),
    )
}

/// Paths are present but not an object (the listing cannot walk them).
pub open spec fn paths_not_object(schema: JsonV) -> bool {
    match jget(schema, "paths"@) {
        Some(p) => jobj(p) is None,
        None => false,
    }
}

fn list_methods(
    out: &mut Vec<ListedOperation>,
    path: &String,
    methods: &Vec<(String, Json)>,
)
    ensures
        listed_view(final(out)@) == listed_view(old(out)@) + listed_in_methods(
            path@,
            entries_view(methods@),
        ),
{
    let ghost mv = entries_view(methods@);
    let ghost o0 = listed_view(out@);
    let mut i: usize = 0;
    assert(mv.take(0) =~= Seq::<(Seq<char>, JsonV)>::empty());
    assert(o0 + listed_in_methods(path@, mv.take(0)) =~= o0);
    while i < methods.len()
        invariant
            i <= methods.len(),
            mv == entries_view(methods@),
            o0 == listed_view(old(out)@),
            listed_view(out@) == o0 + listed_in_methods(path@, mv.take(i as int)),
        decreases methods.len() - i,
    {
        assert(mv.take(i + 1).drop_last() =~= mv.take(i as int));
        assert(mv.take(i + 1).last() == mv[i as int]);
        let op = &methods[i].1;
        match op.get("operationId") {
            Some(Json::String(id)) => {
                let description = match op.get("summary") {
                    Some(Json::String(s)) => s.clone(),
                    _ => match op.get("description") {
                        Some(Json::String(d)) => d.clone(),
                        _ => "No description available".to_owned(),
                    },
                };
                let ghost before = listed_view(out@);
                let item = ListedOperation {
                    operation_id: id.clone(),
                    method: methods[i].0.clone(),
                    path: path.clone(),
                    description,
                };
                out.push(item);
                assert(listed_view(out@) =~= before.push(
                    (id@, methods@[i as int].0@, path@, op_description(op@)),
                ));
            },
            _ => {},
        }
        i = i + 1;
    }
    assert(mv.take(methods.len() as int) =~= mv);
}

/// The operations that have an `operationId`, with their descriptions, or
/// the message when the schema has no paths.
pub fn operations_with_ids(schema: &Json) -> (r: Result<Vec<ListedOperation>, String>)
    requires
        !paths_not_object(schema@),
    ensures
        match jget(schema@, "paths"@) {
            None => r matches Err(m) && m@ == "No paths in schema"@,
            Some(JsonV::Object(paths)) => r matches Ok(v) && listed_view(v@) == listed_in_paths(
                paths,
            ),
            Some(_) => false,
        },
{
    let paths = match schema.get("paths") {
        None => {
            return Err("No paths in schema".to_owned());
        },
        Some(Json::Object(e)) => {
            proof {
                crate::json::lemma_object_view(*e);
            }
            e
        },
        Some(_) => {
            return Err("No paths in schema".to_owned());
        },
    };
    let ghost pv = entries_view(paths@);
    let mut out: Vec<ListedOperation> = Vec::new();
    let mut i: usize = 0;
    assert(pv.take(0) =~= Seq::<(Seq<char>, JsonV)>::empty());
    assert(listed_view(out@) =~= Seq::<(Seq<char>, Seq<char>, Seq<char>, Seq<char>)>::empty());
    while i < paths.len()
        invariant
            i <= paths.len(),
            pv == entries_view(paths@),
            listed_view(out@) == listed_in_paths(pv.take(i as int)),
        decreases paths.len() - i,
    {
        assert(pv.take(i + 1).drop_last() =~= pv.take(i as int));
        assert(pv.take(i + 1).last() == pv[i as int]);
        match &paths[i].1 {
            Json::Object(methods) => {
                proof {
                    crate::json::lemma_object_view(*methods);
                }
                list_methods(&mut out, &paths[i].0, methods);
            },
            _ => {},
        }
        i = i + 1;
    }
    assert(pv.take(paths.len() as int) =~= pv);
    Ok(out)
}

/// Find the (path, method) of the operation with the id `operation_id`, or
/// the message saying why not.
pub fn find_operation_with_id(schema: &Json, operation_id: &str) -> (r: Result<
    (String, String),
    String,
>)
    requires
        !paths_not_object(schema@),
    ensures
        match jget(schema@, "paths"@) {
            None => r matches Err(m) && m@ == "No paths in schema"@,
            Some(JsonV::Object(paths)) => match find_in_paths(paths, operation_id@) {
                Some((p, m)) => r matches Ok((rp, rm)) && rp@ == p && rm@ == m,
                None => r matches Err(m) && m@ == "Operation with ID '"@ + operation_id@
                    + "' not found in schema"@,
            },
            Some(_) => false,
        },
{
    match crate::generate_action::schema_generator::find_operation_by_id(schema, operation_id) {
        Ok(found) => Ok(found),
        Err(crate::generate_action::error::GenerateActionError::OperationNotFound(_)) => {
            let a = concat_strs("Operation with ID '", operation_id);
            Err(concat_strs(a.as_str(), "' not found in schema"))
        },
        Err(_) => Err("No paths in schema".to_owned()),
    }
}

/// Which kinds of implementation were found for an operation.
#[derive(Debug, Clone, Copy, PartialEq, Eq)]
pub enum ImplementationKind {
    NotImplemented,
    Action,
    Trigger,
    Both,
}

/// The kind of implementation from what was found.
pub fn implementation_kind(found_action: bool, found_trigger: bool) -> (r: ImplementationKind)
    ensures
        found_action && found_trigger ==> r is Both,
        found_action && !found_trigger ==> r is Action,
        !found_action && found_trigger ==> r is Trigger,
        !found_action && !found_trigger ==> r is NotImplemented,
{
    if found_action && found_trigger {
        ImplementationKind::Both
    } else if found_action {
        ImplementationKind::Action
    } else if found_trigger {
        ImplementationKind::Trigger
    } else {
        ImplementationKind::NotImplemented
    }
}

/// The status icon of a kind of implementation.
pub fn kind_icon(kind: &ImplementationKind) -> (r: String)
    ensures
        r@ == match *kind {
            ImplementationKind::Action => "🟢"@,
            ImplementationKind::Trigger => "🔵"@,
            ImplementationKind::Both => "🟣"@,
            ImplementationKind::NotImplemented => "⚪"@,
        },
{
    match kind {
        ImplementationKind::Action => "🟢".to_owned(),
        ImplementationKind::Trigger => "🔵".to_owned(),
        ImplementationKind::Both => "🟣".to_owned(),
        ImplementationKind::NotImplemented => "⚪".to_owned(),
    }
}

// ---------------------------------------------------------------------------
// Generated files
// ---------------------------------------------------------------------------

/// The directory of an action's generated files.
pub open spec fn action_dir(name: Seq<char>) -> Seq<char> {
    "src/actions/"@ + name
}

/// The directory of a trigger's generated files.
pub open spec fn trigger_dir(name: Seq<char>) -> Seq<char> {
    "src/triggers/"@ + name
}

/// The code file whose presence marks an action as implemented.
pub fn action_file_path(action_name: &str) -> (r: String)
    ensures
        r@ == action_dir(action_name@) + "/action.rs"@,
{
    let mut v = chars_of("src/actions/");
    append_str(&mut v, action_name);
    append_str(&mut v, "/action.rs");
    string_of(&v)
}

/// The code file whose presence marks a trigger as implemented.
pub fn trigger_file_path(trigger_name: &str) -> (r: String)
    ensures
        r@ == trigger_dir(trigger_name@) + "/fetch_events.rs"@,
{
    let mut v = chars_of("src/triggers/");
    append_str(&mut v, trigger_name);
    append_str(&mut v, "/fetch_events.rs");
    string_of(&v)
}

/// The directory of a trigger's generated files.
pub fn trigger_directory(trigger_name: &str) -> (r: String)
    ensures
        r@ == trigger_dir(trigger_name@),
{
    concat_strs("src/triggers/", trigger_name)
}

/// A file in a directory.
pub fn file_in(dir: &str, file_name: &str) -> (r: String)
    ensures
        r@ == dir@ + "/"@ + file_name@,
{
    let mut v = chars_of(dir);
    append_str(&mut v, "/");
    append_str(&mut v, file_name);
    string_of(&v)
}

// ---------------------------------------------------------------------------
// Names and answers
// ---------------------------------------------------------------------------

/// A name accepted as snake case: lowercase letters, ASCII digits and `_` only.
pub open spec fn is_snake_case(name: Seq<char>) -> bool {
    forall|i: int|
        0 <= i < name.len() ==> (#[trigger] is_lowercase_char(name[i]) || ('0' <= name[i]
            && name[i] <= '9') || name[i] == '_')
}

/// Whether a provided trigger or action name is in snake case.
pub fn is_snake_case_name(name: &str) -> (r: bool)
    ensures
        r == is_snake_case(name@),
{
    let s = chars_of(name);
    let mut i: usize = 0;
    while i < s.len()
        invariant
            i <= s.len(),
            s@ == name@,
            forall|j: int|
                0 <= j < i ==> (#[trigger] is_lowercase_char(s@[j]) || ('0' <= s@[j] && s@[j]
                    <= '9') || s@[j] == '_'),
        decreases s.len() - i,
    {
        let c = s[i];
        if !(char_is_lowercase(c) || ('0' <= c && c <= '9') || c == '_') {
            return false;
        }
        i = i + 1;
    }
    true
}

/// The name to generate under: the provided one when it is in snake case
/// (`None` when it is not), else the snake case of the operation id.
pub fn chosen_name(provided: Option<&str>, operation_id: &str) -> (r: Option<String>)
    ensures
        match provided {
            Some(p) => if is_snake_case(p@) {
                r matches Some(n) && n@ == p@
            } else {
                r is None
            },
            None => r matches Some(n) && n@ == snake_case(operation_id@),
        },
{
    match provided {
        Some(p) => if is_snake_case_name(p) {
            Some(p.to_owned())
        } else {
            None
        },
        None => Some(to_snake_case(operation_id)),
    }
}

/// An answer, already trimmed and lowercased, that confirms: `y` or `yes`.
pub fn is_yes(answer: &str) -> (r: bool)
    ensures
        r == (answer@ == "y"@ || answer@ == "yes"@),
{
    str_eq(answer, "y") || str_eq(answer, "yes")
}

/// Whether an answer to the overwrite question confirms it: trimmed and
/// lowercased, it is `y` or `yes`.
pub fn confirms_overwrite(response: &str) -> (r: bool)
    ensures
        r == (lowercase_str(trim_ws(response@)) == "y"@ || lowercase_str(trim_ws(response@))
            == "yes"@),
        is_ascii_text(trim_ws(response@)) ==> lowercase_str(trim_ws(response@)) == trim_ws(
            response@,
        ).map_values(|c: char| ascii_lower(c)),
{
    let trimmed = string_of(&trim_ws_exec(&chars_of(response)));
    let lowered = str_to_lowercase(trimmed.as_str());
    is_yes(lowered.as_str())
}

/// The metadata recorded with a generated trigger.
pub open spec fn trigger_metadata_of(
    operation_id: Seq<char>,
    path: Seq<char>,
    method: Seq<char>,
    trigger_name: Seq<char>,
) -> JsonV {
    JsonV::Object(
        obj_from(
            seq![
                ("operation_id"@, JsonV::Str(operation_id)),
                ("path"@, JsonV::Str(path)),
                ("method"@, JsonV::Str(method)),
                ("trigger_name"@, JsonV::Str(trigger_name)),
            ],
        ),
    )
}

/// The metadata recorded with a generated trigger: which operation it came from.
pub fn trigger_metadata(operation_id: &str, path: &str, method: &str, trigger_name: &str) -> (r:
    Json)
    ensures
        r@ == trigger_metadata_of(operation_id@, path@, method@, trigger_name@),
{
    let mut e: Vec<(String, Json)> = Vec::new();
    assert(entries_view(e@) =~= Seq::<(Seq<char>, JsonV)>::empty());
    obj_set(&mut e, "operation_id", Json::from_str(operation_id));
    obj_set(&mut e, "path", Json::from_str(path));
    obj_set(&mut e, "method", Json::from_str(method));
    obj_set(&mut e, "trigger_name", Json::from_str(trigger_name));
    proof {
        let e0 = Seq::<(Seq<char>, JsonV)>::empty();
        let a = ("operation_id"@, JsonV::Str(operation_id@));
        let b = ("path"@, JsonV::Str(path@));
        let c = ("method"@, JsonV::Str(method@));
        let d = ("trigger_name"@, JsonV::Str(trigger_name@));
        assert(seq![a, b, c, d].drop_last() =~= seq![a, b, c]);
        assert(seq![a, b, c].drop_last() =~= seq![a, b]);
        assert(seq![a, b].drop_last() =~= seq![a]);
        assert(seq![a].drop_last() =~= e0);
        assert(obj_from(e0) == e0);
        assert(obj_from(seq![a]) == obj_insert(e0, a.0, a.1));
        assert(obj_from(seq![a, b]) == obj_insert(obj_from(seq![a]), b.0, b.1));
        assert(obj_from(seq![a, b, c]) == obj_insert(obj_from(seq![a, b]), c.0, c.1));
    }
    Json::object(e)
}

} // verus!
