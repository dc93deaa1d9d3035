//! Operations of an OpenAPI document and their identifiers.
use vstd::prelude::*;

use crate::json::{entries_view, get_str, jget, jobj, Json, JsonV};
use crate::text::{concat_strs, str_eq};
use crate::{snake_case, to_snake_case};

verus! {

/// Reference to one HTTP operation in an OpenAPI paths object.
#[derive(Debug, Clone, PartialEq, Eq)]
pub struct OperationRef {
    pub path: String,
    pub method: String,
    pub operation_id: Option<String>,
}

/// The model of an [`OperationRef`].
pub struct OperationV {
    pub path: Seq<char>,
    pub method: Seq<char>,
    pub operation_id: Option<Seq<char>>,
}

pub open spec fn opt_view(o: Option<String>) -> Option<Seq<char>> {
    match o {
        Some(s) => Some(s@),
        None => None,
    }
}

impl View for OperationRef {
    type V = OperationV;

    open spec fn view(&self) -> OperationV {
        OperationV { path: self.path@, method: self.method@, operation_id: opt_view(self.operation_id) }
    }
}

pub open spec fn ops_view(v: Seq<OperationRef>) -> Seq<OperationV> {
    Seq::new(v.len(), |i: int| v[i]@)
}

pub open spec fn strings_view(v: Seq<String>) -> Seq<Seq<char>> {
    Seq::new(v.len(), |i: int| v[i]@)
}

/// Error when resolving an operation by identifier.
#[derive(Debug, Clone, PartialEq, Eq)]
pub enum FindOperationError {
    InvalidSchema(String),
    NotFound { identifier: String, hints: Vec<String> },
    Ambiguous { identifier: String, candidates: Vec<String> },
}

/// The methods of an OpenAPI path item that are HTTP operations.
pub open spec fn http_methods() -> Seq<Seq<char>> {
    seq![
        "get"@,
        "post"@,
        "put"@,
        "patch"@,
        "delete"@,
        "head"@,
        "options"@,
        "trace"@,
    ]
}

/// Whether `m` is one of the HTTP methods.
pub fn is_http_method(m: &str) -> (r: bool)
    ensures
        r == http_methods().contains(m@),
{
    let r = str_eq(m, "get") || str_eq(m, "post") || str_eq(m, "put") || str_eq(m, "patch")
        || str_eq(m, "delete") || str_eq(m, "head") || str_eq(m, "options") || str_eq(m, "trace");
    proof {
        let h = http_methods();
        if r {
            if m@ == "get"@ {
                assert(h[0] == m@);
            } else if m@ == "post"@ {
                assert(h[1] == m@);
            } else if m@ == "put"@ {
                assert(h[2] == m@);
            } else if m@ == "patch"@ {
                assert(h[3] == m@);
            } else if m@ == "delete"@ {
                assert(h[4] == m@);
            } else if m@ == "head"@ {
                assert(h[5] == m@);
            } else if m@ == "options"@ {
                assert(h[6] == m@);
            } else {
                assert(h[7] == m@);
            }
        }
    }
    r
}

/// The operations of one path item, in the order of its methods.
pub open spec fn ops_of_methods(path: Seq<char>, e: Seq<(Seq<char>, JsonV)>) -> Seq<OperationV>
    decreases e.len(),
{
    if e.len() == 0 {
        Seq::empty()
    } else {
        let prev = ops_of_methods(path, e.drop_last());
        let (m, mv) = e.last();
        if http_methods().contains(m) && mv is Object {
            prev.push(
                OperationV { path: path, method: m, operation_id: get_str(mv, "operationId"@) },
            )
        } else {
            prev
        }
    }
}

/// The operations of a paths object, path by path.
pub open spec fn ops_of_paths(e: Seq<(Seq<char>, JsonV)>) -> Seq<OperationV>
    decreases e.len(),
{
    if e.len() == 0 {
        Seq::empty()
    } else {
        let prev = ops_of_paths(e.drop_last());
        let (p, pv) = e.last();
        match pv {
            JsonV::Object(me) => prev + ops_of_methods(p, me),
            _ => prev,
        }
    }
}

/// The outcome of [`iter_operations`]: the operations under `paths`, or why there are none.
pub open spec fn iter_operations_spec(schema: JsonV) -> Result<Seq<OperationV>, Seq<char>> {
    match jget(schema, "paths"@) {
        None => Err("No paths in schema"@),
        Some(p) => match jobj(p) {
            None => Err("Paths is not an object"@),
            Some(e) => Ok(ops_of_paths(e)),
        },
    }
}

/// Iterate HTTP operations under `paths`.
pub fn iter_operations(schema: &Json) -> (r: Result<Vec<OperationRef>, FindOperationError>)
    ensures
        match iter_operations_spec(schema@) {
            Ok(ops) => r matches Ok(v) && ops_view(v@) == ops,
            Err(msg) => r matches Err(FindOperationError::InvalidSchema(m)) && m@ == msg,
        },
{
    let paths = match schema.get("paths") {
        Some(p) => p,
        None => {
            return Err(FindOperationError::InvalidSchema("No paths in schema".to_owned()));
        },
    };
    let paths_obj = match paths.as_object() {
        Some(o) => o,
        None => {
            return Err(FindOperationError::InvalidSchema("Paths is not an object".to_owned()));
        },
    };
    let ghost pe = entries_view(paths_obj@);
    let mut ops: Vec<OperationRef> = Vec::new();
    let mut i: usize = 0;
    assert(pe.take(0) =~= Seq::<(Seq<char>, JsonV)>::empty());
    assert(ops_view(ops@) =~= Seq::<OperationV>::empty());
    while i < paths_obj.len()
        invariant
            i <= paths_obj.len(),
            pe == entries_view(paths_obj@),
            ops_view(ops@) == ops_of_paths(pe.take(i as int)),
        decreases paths_obj.len() - i,
    {
        assert(pe.take(i + 1).drop_last() =~= pe.take(i as int));
        assert(pe.take(i + 1).last() == pe[i as int]);
        let path = &paths_obj[i].0;
        match paths_obj[i].1.as_object() {
            Some(path_entries) => {
                let ghost me = entries_view(path_entries@);
                let ghost before = ops_view(ops@);
                let mut j: usize = 0;
                assert(me.take(0) =~= Seq::<(Seq<char>, JsonV)>::empty());
                assert(before + ops_of_methods(path@, me.take(0)) =~= before);
                while j < path_entries.len()
                    invariant
                        j <= path_entries.len(),
                        me == entries_view(path_entries@),
                        ops_view(ops@) == before + ops_of_methods(path@, me.take(j as int)),
                    decreases path_entries.len() - j,
                {
                    assert(me.take(j + 1).drop_last() =~= me.take(j as int));
                    assert(me.take(j + 1).last() == me[j as int]);
                    let method = &path_entries[j].0;
                    let method_obj = &path_entries[j].1;
                    if is_http_method(method.as_str()) && method_obj.as_object().is_some() {
                        let operation_id = match method_obj.get("operationId") {
                            Some(v) => match v.as_str() {
                                Some(s) => Some(s.clone()),
                                None => None,
                            },
                            None => None,
                        };
                        let ghost prev = ops_view(ops@);
                        ops.push(
                            OperationRef {
                                path: path.clone(),
                                method: method.clone(),
                                operation_id: operation_id,
                            },
                        );
                        assert(ops_view(ops@) =~= prev.push(ops@.last()@));
                    }
                    j = j + 1;
                }
                assert(me.take(path_entries.len() as int) =~= me);
                assert(ops_view(ops@) =~= ops_of_paths(pe.take(i + 1)));
            },
            None => {},
        }
        i = i + 1;
    }
    assert(pe.take(paths_obj.len() as int) =~= pe);
    Ok(ops)
}

/// The identifier made of an HTTP method and a path.
pub open spec fn synthetic_id(method: Seq<char>, path: Seq<char>) -> Seq<char> {
    snake_case(method + " "@ + path)
}

/// The identifier of an operation: its `operationId`, else the one made of its method and path.
pub open spec fn lookup_key(op: OperationV) -> Seq<char> {
    match op.operation_id {
        Some(id) => id,
        None => synthetic_id(op.method, op.path),
    }
}

/// Build a stable operation identifier from HTTP method and path
/// (e.g. `get /users/{id}` → `get_users_id`).
pub fn synthetic_operation_id(method: &str, path: &str) -> (r: String)
    ensures
        r@ == synthetic_id(method@, path@),
{
    let with_space = concat_strs(method, " ");
    let joined = concat_strs(with_space.as_str(), path);
    to_snake_case(joined.as_str())
}

/// Identifier shown in the endpoint listing and accepted by
/// [`find_operation_by_identifier`]: the `operationId` when present,
/// otherwise [`synthetic_operation_id`].
pub fn operation_lookup_key(operation: &OperationRef) -> (r: String)
    ensures
        r@ == lookup_key(operation@),
{
    match &operation.operation_id {
        Some(id) => id.clone(),
        None => synthetic_operation_id(operation.method.as_str(), operation.path.as_str()),
    }
}

/// The operations among `ops` whose identifier is `id`, in order.
pub open spec fn matching(ops: Seq<OperationV>, id: Seq<char>) -> Seq<OperationV>
    decreases ops.len(),
{
    if ops.len() == 0 {
        Seq::empty()
    } else if lookup_key(ops.last()) == id {
        matching(ops.drop_last(), id).push(ops.last())
    } else {
        matching(ops.drop_last(), id)
    }
}

/// The identifiers of the first (at most eight) operations.
pub open spec fn hints_of(ops: Seq<OperationV>) -> Seq<Seq<char>> {
    let n = if ops.len() < 8 {
        ops.len() as int
    } else {
        8
    };
    Seq::new(n as nat, |i: int| lookup_key(ops[i]))
}

/// Find an operation by `operationId` or by the identifier made of its method
/// and path. Exactly one operation must carry the identifier: when none does,
/// the error lists the identifiers of the first eight operations; when several
/// do, it lists one candidate per match.
pub fn find_operation_by_identifier(schema: &Json, identifier: &str) -> (r: Result<
    (String, String),
    FindOperationError,
>)
    ensures
        match iter_operations_spec(schema@) {
            Err(msg) => r matches Err(FindOperationError::InvalidSchema(m)) && m@ == msg,
            Ok(ops) => {
                let found = matching(ops, identifier@);
                &&& found.len() == 1 ==> (r matches Ok((p, m)) && p@ == found[0].path && m@
                    == found[0].method)
                &&& found.len() == 0 ==> (r matches Err(
                    FindOperationError::NotFound { identifier: id, hints },
                ) && id@ == identifier@ && strings_view(hints@) == hints_of(ops))
                &&& found.len() > 1 ==> (r matches Err(
                    FindOperationError::Ambiguous { identifier: id, candidates },
                ) && id@ == identifier@ && candidates@.len() == found.len() && forall|i: int|
                    0 <= i < candidates@.len() ==> #[trigger] candidates@[i]@ == identifier@)
            },
        },
{
    let operations = iter_operations(schema)?;
    let ghost ops = ops_view(operations@);
    let mut keys: Vec<String> = Vec::new();
    let mut first_match: usize = 0;
    let mut count: usize = 0;
    let mut i: usize = 0;
    assert(ops.take(0) =~= Seq::<OperationV>::empty());
    while i < operations.len()
        invariant
            i <= operations.len(),
            ops == ops_view(operations@),
            keys@.len() == i,
            forall|k: int| 0 <= k < i ==> #[trigger] keys@[k]@ == lookup_key(ops[k]),
            count == matching(ops.take(i as int), identifier@).len(),
            count <= i,
            count >= 1 ==> first_match < i && matching(ops.take(i as int), identifier@)[0]
                == ops[first_match as int],
        decreases operations.len() - i,
    {
        let key = operation_lookup_key(&operations[i]);
        assert(ops.take(i + 1).drop_last() =~= ops.take(i as int));
        assert(ops.take(i + 1).last() == ops[i as int]);
        if str_eq(key.as_str(), identifier) {
            if count == 0 {
                first_match = i;
            }
            count = count + 1;
        }
        keys.push(key);
        i = i + 1;
    }
    assert(ops.take(operations.len() as int) =~= ops);
    if count == 1 {
        let op = &operations[first_match];
        return Ok((op.path.clone(), op.method.clone()));
    }
    if count == 0 {
        let mut hints: Vec<String> = Vec::new();
        let mut h: usize = 0;
        while h < keys.len() && h < 8
            invariant
                h <= keys.len(),
                keys@.len() == ops.len(),
                forall|k: int| 0 <= k < keys@.len() ==> #[trigger] keys@[k]@ == lookup_key(ops[k]),
                h <= 8,
                hints@.len() == h,
                forall|t: int| 0 <= t < h ==> #[trigger] hints@[t]@ == lookup_key(ops[t]),
            decreases keys.len() - h,
        {
            hints.push(keys[h].clone());
            h = h + 1;
        }
        assert(h == hints_of(ops).len());
        assert(strings_view(hints@) =~= hints_of(ops));
        return Err(
            FindOperationError::NotFound { identifier: identifier.to_owned(), hints: hints },
        );
    }
    let mut candidates: Vec<String> = Vec::new();
    let mut k: usize = 0;
    while k < keys.len()
        invariant
            k <= keys.len(),
            keys@.len() == ops.len(),
            forall|t: int| 0 <= t < keys@.len() ==> #[trigger] keys@[t]@ == lookup_key(ops[t]),
            candidates@.len() == matching(ops.take(k as int), identifier@).len(),
            forall|t: int| 0 <= t < candidates@.len() ==> #[trigger] candidates@[t]@ == identifier@,
        decreases keys.len() - k,
    {
        assert(ops.take(k + 1).drop_last() =~= ops.take(k as int));
        assert(ops.take(k + 1).last() == ops[k as int]);
        if str_eq(keys[k].as_str(), identifier) {
            candidates.push(keys[k].clone());
        }
        k = k + 1;
    }
    Err(FindOperationError::Ambiguous { identifier: identifier.to_owned(), candidates: candidates })
}

/// An operation whose identifier no other operation shares is found again by
/// that identifier.
pub proof fn lemma_unique_key_is_found(ops: Seq<OperationV>, i: int)
    requires
        0 <= i < ops.len(),
        forall|j: int| 0 <= j < ops.len() && j != i ==> lookup_key(#[trigger] ops[j]) != lookup_key(
            ops[i],
        ),
    ensures
        matching(ops, lookup_key(ops[i])) == seq![ops[i]],
{
    lemma_matching_unique(ops, i, ops.len() as int);
    assert(ops.take(ops.len() as int) =~= ops);
}

proof fn lemma_matching_unique(ops: Seq<OperationV>, i: int, n: int)
    requires
        0 <= i < ops.len(),
        0 <= n <= ops.len(),
        forall|j: int| 0 <= j < ops.len() && j != i ==> lookup_key(#[trigger] ops[j]) != lookup_key(
            ops[i],
        ),
    ensures
        n <= i ==> matching(ops.take(n), lookup_key(ops[i])) == Seq::<OperationV>::empty(),
        n > i ==> matching(ops.take(n), lookup_key(ops[i])) == seq![ops[i]],
    decreases n,
{
    let id = lookup_key(ops[i]);
    if n > 0 {
        lemma_matching_unique(ops, i, n - 1);
        assert(ops.take(n).drop_last() =~= ops.take(n - 1));
        assert(ops.take(n).last() == ops[n - 1]);
        if n - 1 == i {
            assert(Seq::<OperationV>::empty().push(ops[i]) =~= seq![ops[i]]);
        }
    }
}

/// The identifiers that [`iter_operations`] lists are accepted by
/// [`find_operation_by_identifier`]: for every operation whose identifier is
/// unique in the document, looking that identifier up gives back the
/// operation's path and method.
pub proof fn lemma_listed_identifier_finds_operation(schema: JsonV, i: int)
    requires
        iter_operations_spec(schema) is Ok,
        0 <= i < iter_operations_spec(schema)->Ok_0.len(),
        forall|j: int|
            0 <= j < iter_operations_spec(schema)->Ok_0.len() && j != i ==> lookup_key(
                #[trigger] iter_operations_spec(schema)->Ok_0[j],
            ) != lookup_key(iter_operations_spec(schema)->Ok_0[i]),
    ensures
        ({
            let ops = iter_operations_spec(schema)->Ok_0;
            let found = matching(ops, lookup_key(ops[i]));
            found.len() == 1 && found[0].path == ops[i].path && found[0].method == ops[i].method
        }),
{
    lemma_unique_key_is_found(iter_operations_spec(schema)->Ok_0, i);
}

// ---------------------------------------------------------------------------
// Messages
// ---------------------------------------------------------------------------

/// Each item on a line of its own, after `\n  - `.
pub open spec fn bullet_lines(items: Seq<Seq<char>>) -> Seq<char>
    decreases items.len(),
{
    if items.len() == 0 {
        Seq::empty()
    } else {
        bullet_lines(items.drop_last()) + "\n  - "@ + items.last()
    }
}

/// The message of a lookup error: the schema problem; or the identifier not
/// found, with the hints to try where there are any; or the identifier
/// matching several endpoints, with the candidates.
pub open spec fn find_error_message(e: FindOperationError) -> Seq<char> {
    match e {
        FindOperationError::InvalidSchema(m) => m@,
        FindOperationError::NotFound { identifier, hints } => "Operation '"@ + identifier@
            + "' not found in schema"@ + if hints.len() > 0 {
            ". Try one of:"@ + bullet_lines(strings_view(hints@))
        } else {
            Seq::empty()
        },
        FindOperationError::Ambiguous { identifier, candidates } => "Operation '"@ + identifier@
            + "' matches multiple endpoints. Use a more specific identifier:"@ + bullet_lines(
            strings_view(candidates@),
        ),
    }
}

fn append_bullets(out: &mut Vec<char>, items: &Vec<String>)
    ensures
        final(out)@ == old(out)@ + bullet_lines(strings_view(items@)),
{
    let ghost iv = strings_view(items@);
    let ghost o0 = out@;
    let mut i: usize = 0;
    assert(iv.take(0) =~= Seq::<Seq<char>>::empty());
    assert(o0 + bullet_lines(Seq::<Seq<char>>::empty()) =~= o0);
    while i < items.len()
        invariant
            i <= items.len(),
            iv == strings_view(items@),
            o0 == old(out)@,
            out@ == o0 + bullet_lines(iv.take(i as int)),
        decreases items.len() - i,
    {
        assert(iv.take(i + 1).drop_last() =~= iv.take(i as int));
        assert(iv.take(i + 1).last() == items@[i as int]@);
        crate::text::append_str(out, "\n  - ");
        crate::text::append_str(out, items[i].as_str());
        assert(out@ =~= o0 + bullet_lines(iv.take(i + 1)));
        i = i + 1;
    }
    assert(iv.take(items.len() as int) =~= iv);
}

impl FindOperationError {
    /// The message of this error, as it is shown to the user.
    pub fn to_message(&self) -> (r: String)
        ensures
            r@ == find_error_message(*self),
    {
        match self {
            FindOperationError::InvalidSchema(m) => m.clone(),
            FindOperationError::NotFound { identifier, hints } => {
                let mut out = crate::text::chars_of("Operation '");
                crate::text::append_str(&mut out, identifier.as_str());
                crate::text::append_str(&mut out, "' not found in schema");
                if hints.len() > 0 {
                    crate::text::append_str(&mut out, ". Try one of:");
                    append_bullets(&mut out, hints);
                }
                crate::text::string_of(&out)
            },
            FindOperationError::Ambiguous { identifier, candidates } => {
                let mut out = crate::text::chars_of("Operation '");
                crate::text::append_str(&mut out, identifier.as_str());
                crate::text::append_str(
                    &mut out,
                    "' matches multiple endpoints. Use a more specific identifier:",
                );
                append_bullets(&mut out, candidates);
                crate::text::string_of(&out)
            },
        }
    }
}

} // verus!
