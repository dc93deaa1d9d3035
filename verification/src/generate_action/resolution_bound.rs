//! Why the resolution budget of a document is enough: a value whose `$ref`
//! references and `allOf` parts resolve at all resolves within
//! `ref_budget`, to the same schema.
//!
//! Resolution goes from a value to the component its `$ref` names or to its
//! `allOf` parts (`ref_child`). All of these are values nested in the
//! document or in the value itself, and a chain that meets one of them twice
//! never resolves (`lemma_ref_cycle_unresolved`), so a chain that resolves is
//! no longer than the number of nested values, which is at most the number
//! of nodes.
use vstd::prelude::*;

use super::schema_generator::{
    lemma_merge_none_extends, lemma_resolve_fuel_monotone, merge_parts, ref_budget, resolve_fuel,
    resolve_ref_spec, resolved, response_schema_of, success_response,
};
use crate::json::{entries_size, jget, jsize, obj_get, seq_size, JsonV};

verus! {

broadcast use vstd::set::group_set_axioms;

/// The values nested in `j`, `j` itself among them.
pub open spec fn nested(j: JsonV) -> Set<JsonV>
    decreases j,
{
    match j {
        JsonV::Array(s) => set![j].union(nested_values(s)),
        JsonV::Object(e) => set![j].union(nested_entries(e)),
        _ => set![j],
    }
}

/// The values nested in the elements of `s`.
pub open spec fn nested_values(s: Seq<JsonV>) -> Set<JsonV>
    decreases s,
{
    if s.len() == 0 {
        Set::empty()
    } else {
        nested_values(s.drop_last()).union(nested(s.last()))
    }
}

/// The values nested in the values of the entries `e`.
pub open spec fn nested_entries(e: Seq<(Seq<char>, JsonV)>) -> Set<JsonV>
    decreases e,
{
    if e.len() == 0 {
        Set::empty()
    } else {
        nested(e[0].1).union(nested_entries(e.drop_first()))
    }
}

pub(crate) proof fn lemma_nested_size(j: JsonV)
    ensures
        nested(j).finite(),
        nested(j).len() <= jsize(j),
    decreases j,
{
    match j {
        JsonV::Array(s) => {
            lemma_nested_values_size(s);
            vstd::set_lib::lemma_len_union(set![j], nested_values(s));
        },
        JsonV::Object(e) => {
            lemma_nested_entries_size(e);
            vstd::set_lib::lemma_len_union(set![j], nested_entries(e));
        },
        _ => {},
    }
}

proof fn lemma_nested_values_size(s: Seq<JsonV>)
    ensures
        nested_values(s).finite(),
        nested_values(s).len() <= seq_size(s),
    decreases s,
{
    if s.len() > 0 {
        lemma_nested_values_size(s.drop_last());
        lemma_nested_size(s.last());
        vstd::set_lib::lemma_len_union(nested_values(s.drop_last()), nested(s.last()));
    }
}

proof fn lemma_nested_entries_size(e: Seq<(Seq<char>, JsonV)>)
    ensures
        nested_entries(e).finite(),
        nested_entries(e).len() <= entries_size(e),
    decreases e,
{
    if e.len() > 0 {
        lemma_nested_size(e[0].1);
        lemma_nested_entries_size(e.drop_first());
        vstd::set_lib::lemma_len_union(nested(e[0].1), nested_entries(e.drop_first()));
    }
}

pub(crate) proof fn lemma_nested_trans(x: JsonV, y: JsonV, z: JsonV)
    requires
        nested(x).contains(y),
        nested(y).contains(z),
    ensures
        nested(x).contains(z),
    decreases x,
{
    if y != x {
        match x {
            JsonV::Array(s) => lemma_nested_values_trans(s, y, z),
            JsonV::Object(e) => lemma_nested_entries_trans(e, y, z),
            _ => {},
        }
    }
}

proof fn lemma_nested_values_trans(s: Seq<JsonV>, y: JsonV, z: JsonV)
    requires
        nested_values(s).contains(y),
        nested(y).contains(z),
    ensures
        nested_values(s).contains(z),
    decreases s,
{
    if s.len() > 0 {
        if nested(s.last()).contains(y) {
            lemma_nested_trans(s.last(), y, z);
        } else {
            lemma_nested_values_trans(s.drop_last(), y, z);
        }
    }
}

pub(crate) proof fn lemma_nested_entries_trans(e: Seq<(Seq<char>, JsonV)>, y: JsonV, z: JsonV)
    requires
        nested_entries(e).contains(y),
        nested(y).contains(z),
    ensures
        nested_entries(e).contains(z),
    decreases e,
{
    if e.len() > 0 {
        if nested(e[0].1).contains(y) {
            lemma_nested_trans(e[0].1, y, z);
        } else {
            lemma_nested_entries_trans(e.drop_first(), y, z);
        }
    }
}

pub(crate) proof fn lemma_element_nested(s: Seq<JsonV>, i: int)
    requires
        0 <= i < s.len(),
    ensures
        nested_values(s).contains(s[i]),
    decreases s.len(),
{
    if i == s.len() - 1 {
        assert(nested(s.last()).contains(s.last()));
    } else {
        lemma_element_nested(s.drop_last(), i);
    }
}

pub(crate) proof fn lemma_member_nested(e: Seq<(Seq<char>, JsonV)>, k: Seq<char>)
    requires
        obj_get(e, k) is Some,
    ensures
        nested_entries(e).contains(obj_get(e, k).unwrap()),
    decreases e.len(),
{
    if e[0].0 == k {
        assert(nested(e[0].1).contains(e[0].1));
    } else {
        lemma_member_nested(e.drop_first(), k);
    }
}

proof fn lemma_jget_nested(j: JsonV, k: Seq<char>)
    requires
        jget(j, k) is Some,
    ensures
        nested(j).contains(jget(j, k).unwrap()),
{
    if let JsonV::Object(e) = j {
        lemma_member_nested(e, k);
    }
}

/// What a reference names lies in the document.
pub(crate) proof fn lemma_ref_target_nested(schema: JsonV, r: Seq<char>)
    requires
        resolve_ref_spec(schema, r) is Some,
    ensures
        nested(schema).contains(resolve_ref_spec(schema, r).unwrap()),
{
    let parts = crate::text::split_char(r, '/');
    let components = jget(schema, "components"@).unwrap();
    let section = jget(components, parts[2]).unwrap();
    lemma_jget_nested(schema, "components"@);
    lemma_jget_nested(components, parts[2]);
    lemma_jget_nested(section, parts[3]);
    lemma_nested_trans(components, section, jget(section, parts[3]).unwrap());
    lemma_nested_trans(schema, components, jget(section, parts[3]).unwrap());
}

/// `w` is a value that resolving `v` goes on to: the component its `$ref`
/// names or, where it has none that resolves, one of its `allOf` parts.
pub open spec fn ref_child(schema: JsonV, v: JsonV, w: JsonV) -> bool {
    match v {
        JsonV::Object(obj) => {
            let via_ref = match obj_get(obj, "$ref"@) {
                Some(JsonV::Str(r)) => resolve_ref_spec(schema, r),
                _ => None,
            };
            match via_ref {
                Some(t) => t == w,
                None => match obj_get(obj, "allOf"@) {
                    Some(JsonV::Array(parts)) => exists|i: int|
                        0 <= i < parts.len() && #[trigger] parts[i] == w,
                    _ => false,
                },
            }
        },
        _ => false,
    }
}

/// Each value of `path` is one that resolving the one before goes on to.
pub open spec fn ref_path(schema: JsonV, path: Seq<JsonV>) -> bool {
    forall|j: int| 0 <= j < path.len() - 1 ==> #[trigger] ref_child(schema, path[j], path[j + 1])
}

proof fn lemma_child_in_nested(schema: JsonV, v: JsonV, w: JsonV)
    requires
        ref_child(schema, v, w),
    ensures
        nested(schema).contains(w) || nested(v).contains(w),
{
    if let JsonV::Object(obj) = v {
        let via_ref = match obj_get(obj, "$ref"@) {
            Some(JsonV::Str(r)) => resolve_ref_spec(schema, r),
            _ => None,
        };
        match via_ref {
            Some(t) => {
                let r = obj_get(obj, "$ref"@).unwrap()->Str_0;
                lemma_ref_target_nested(schema, r);
            },
            None => {
                let a = obj_get(obj, "allOf"@).unwrap();
                let parts = a->Array_0;
                let i = choose|i: int| 0 <= i < parts.len() && #[trigger] parts[i] == w;
                lemma_member_nested(obj, "allOf"@);
                lemma_element_nested(parts, i);
                assert(nested(a).contains(w));
                assert(nested(v).contains(a));
                lemma_nested_trans(v, a, w);
            },
        }
    }
}

proof fn lemma_merge_unresolved_at(schema: JsonV, parts: Seq<JsonV>, i: int, fuel: nat)
    requires
        0 <= i < parts.len(),
        resolve_fuel(schema, parts[i], fuel) is None,
    ensures
        merge_parts(schema, parts, fuel) is None,
{
    assert(parts.take(i + 1).drop_last() =~= parts.take(i));
    assert(parts.take(i + 1).last() == parts[i]);
    assert(merge_parts(schema, parts.take(i + 1), fuel) is None);
    lemma_merge_none_extends(schema, parts, i + 1, fuel);
}

proof fn lemma_ref_child_unresolved(schema: JsonV, v: JsonV, w: JsonV, fuel: nat)
    requires
        ref_child(schema, v, w),
        resolve_fuel(schema, w, fuel) is None,
    ensures
        resolve_fuel(schema, v, fuel + 1) is None,
{
    if let JsonV::Object(obj) = v {
        let via_ref = match obj_get(obj, "$ref"@) {
            Some(JsonV::Str(r)) => resolve_ref_spec(schema, r),
            _ => None,
        };
        if via_ref is None {
            let parts = obj_get(obj, "allOf"@).unwrap()->Array_0;
            let i = choose|i: int| 0 <= i < parts.len() && #[trigger] parts[i] == w;
            lemma_merge_unresolved_at(schema, parts, i, fuel);
        }
    }
}

/// Values on a chain that leads back to one of them never resolve, whatever
/// the budget.
pub(crate) proof fn lemma_ref_cycle_unresolved(schema: JsonV, path: Seq<JsonV>, k: int, fuel: nat)
    requires
        ref_path(schema, path),
        0 <= k < path.len(),
        ref_child(schema, path.last(), path[k]),
    ensures
        forall|i: int| k <= i < path.len() ==> resolve_fuel(schema, #[trigger] path[i], fuel) is None,
    decreases fuel,
{
    if fuel > 0 {
        let f1 = (fuel - 1) as nat;
        lemma_ref_cycle_unresolved(schema, path, k, f1);
        assert forall|i: int| k <= i < path.len() implies resolve_fuel(
            schema,
            #[trigger] path[i],
            fuel,
        ) is None by {
            if i + 1 < path.len() {
                assert(ref_child(schema, path[i], path[i + 1]));
                assert(resolve_fuel(schema, path[i + 1], f1) is None);
                lemma_ref_child_unresolved(schema, path[i], path[i + 1], f1);
            } else {
                assert(resolve_fuel(schema, path[k], f1) is None);
                lemma_ref_child_unresolved(schema, path[i], path[k], f1);
            }
        }
    }
}

proof fn lemma_merge_parts_each(schema: JsonV, parts: Seq<JsonV>, fuel: nat)
    requires
        merge_parts(schema, parts, fuel) is Some,
    ensures
        forall|i: int| 0 <= i < parts.len() ==> resolve_fuel(schema, #[trigger] parts[i], fuel) is Some,
    decreases parts.len(),
{
    if parts.len() > 0 {
        lemma_merge_parts_each(schema, parts.drop_last(), fuel);
        assert forall|i: int| 0 <= i < parts.len() implies resolve_fuel(
            schema,
            #[trigger] parts[i],
            fuel,
        ) is Some by {
            if i < parts.len() - 1 {
                assert(parts.drop_last()[i] == parts[i]);
            }
        }
    }
}

proof fn lemma_merge_parts_all(schema: JsonV, parts: Seq<JsonV>, fuel: nat)
    requires
        forall|i: int| 0 <= i < parts.len() ==> resolve_fuel(schema, #[trigger] parts[i], fuel) is Some,
    ensures
        merge_parts(schema, parts, fuel) is Some,
    decreases parts.len(),
{
    if parts.len() > 0 {
        assert forall|i: int| 0 <= i < parts.len() - 1 implies resolve_fuel(
            schema,
            #[trigger] parts.drop_last()[i],
            fuel,
        ) is Some by {
            assert(parts.drop_last()[i] == parts[i]);
        }
        lemma_merge_parts_all(schema, parts.drop_last(), fuel);
        assert(resolve_fuel(schema, parts[parts.len() - 1], fuel) is Some);
    }
}

/// A chain without repeats inside a finite set closed under `ref_child`
/// that resolves at all resolves from its last value within as many steps as
/// the set has values the chain has not met.
proof fn lemma_fuel_within(schema: JsonV, u: Set<JsonV>, path: Seq<JsonV>, fuel: nat)
    requires
        u.finite(),
        path.len() > 0,
        path.no_duplicates(),
        forall|i: int| 0 <= i < path.len() ==> u.contains(#[trigger] path[i]),
        forall|y: JsonV, z: JsonV| u.contains(y) && #[trigger] ref_child(schema, y, z) ==> u.contains(z),
        ref_path(schema, path),
        resolve_fuel(schema, path.last(), fuel) is Some,
    ensures
        path.len() <= u.len(),
        resolve_fuel(schema, path.last(), (u.len() - path.len() + 1) as nat) is Some,
    decreases fuel,
{
    path.unique_seq_to_set();
    assert(path.to_set().subset_of(u));
    vstd::set_lib::lemma_len_subset(path.to_set(), u);
    let x = path.last();
    let k = (u.len() - path.len() + 1) as nat;
    let f1 = (fuel - 1) as nat;
    // a value that resolving `x` goes on to is not on the chain
    assert forall|y: JsonV| #[trigger] ref_child(schema, x, y) && resolve_fuel(schema, y, f1) is Some implies {
        &&& !path.contains(y)
        &&& u.contains(y)
        &&& path.len() + 1 <= u.len()
        &&& resolve_fuel(schema, y, (k - 1) as nat) is Some
    } by {
        assert(u.contains(x));
        if path.contains(y) {
            let j = choose|j: int| 0 <= j < path.len() && path[j] == y;
            lemma_ref_cycle_unresolved(schema, path, j, fuel);
            assert(resolve_fuel(schema, path[path.len() - 1], fuel) is None);
        }
        let p2 = path.push(y);
        assert forall|i: int| 0 <= i < p2.len() implies u.contains(#[trigger] p2[i]) by {
            if i < path.len() {
                assert(p2[i] == path[i]);
            }
        }
        assert forall|j: int| 0 <= j < p2.len() - 1 implies #[trigger] ref_child(
            schema,
            p2[j],
            p2[j + 1],
        ) by {
            if j < path.len() - 1 {
                assert(p2[j] == path[j] && p2[j + 1] == path[j + 1]);
                assert(ref_child(schema, path[j], path[j + 1]));
            }
        }
        assert(p2.no_duplicates()) by {
            assert forall|a: int, b: int| 0 <= a < p2.len() && 0 <= b < p2.len() && a != b implies p2[a]
                != p2[b] by {
                if a < path.len() && b < path.len() {
                    assert(p2[a] == path[a] && p2[b] == path[b]);
                } else if a < path.len() {
                    assert(p2[a] == path[a]);
                    assert(path.contains(p2[a]));
                } else if b < path.len() {
                    assert(p2[b] == path[b]);
                    assert(path.contains(p2[b]));
                }
            }
        }
        assert(p2.last() == y);
        lemma_fuel_within(schema, u, p2, f1);
    }
    match x {
        JsonV::Object(obj) => {
            let via_ref = match obj_get(obj, "$ref"@) {
                Some(JsonV::Str(r)) => resolve_ref_spec(schema, r),
                _ => None,
            };
            match via_ref {
                Some(t) => {
                    assert(ref_child(schema, x, t));
                },
                None => match obj_get(obj, "allOf"@) {
                    Some(JsonV::Array(parts)) => {
                        lemma_merge_parts_each(schema, parts, f1);
                        assert forall|i: int| 0 <= i < parts.len() implies resolve_fuel(
                            schema,
                            #[trigger] parts[i],
                            (k - 1) as nat,
                        ) is Some by {
                            assert(ref_child(schema, x, parts[i]));
                        }
                        lemma_merge_parts_all(schema, parts, (k - 1) as nat);
                    },
                    _ => {},
                },
            }
        },
        _ => {},
    }
}

/// A value whose references resolve within some budget resolves within the
/// budget of the document, to the same schema: resolution fails only for
/// chains of references that lead back to where they started.
pub proof fn lemma_ref_budget_suffices(schema: JsonV, v: JsonV, fuel: nat)
    requires
        jsize(schema) + jsize(v) <= usize::MAX,
        resolve_fuel(schema, v, fuel) is Some,
    ensures
        resolved(schema, v) == resolve_fuel(schema, v, fuel),
{
    let u = nested(schema).union(nested(v));
    lemma_nested_size(schema);
    lemma_nested_size(v);
    vstd::set_lib::lemma_len_union(nested(schema), nested(v));
    assert forall|y: JsonV, z: JsonV| u.contains(y) && #[trigger] ref_child(schema, y, z) implies u.contains(
        z,
    ) by {
        lemma_child_in_nested(schema, y, z);
        if nested(y).contains(z) {
            if nested(schema).contains(y) {
                lemma_nested_trans(schema, y, z);
            } else {
                lemma_nested_trans(v, y, z);
            }
        }
    }
    let path = seq![v];
    assert(u.contains(v));
    assert(path.last() == v);
    lemma_fuel_within(schema, u, path, fuel);
    let k = u.len();
    assert(k <= ref_budget(schema, v));
    if fuel <= k {
        lemma_resolve_fuel_monotone(schema, v, fuel, k);
    } else {
        lemma_resolve_fuel_monotone(schema, v, k, fuel);
    }
    lemma_resolve_fuel_monotone(schema, v, k, ref_budget(schema, v));
}


/// A value that is a `$ref` resolves as what the reference names does.
pub proof fn lemma_ref_resolves_as_target(
    schema: JsonV,
    v: JsonV,
    r: Seq<char>,
    target: JsonV,
)
    requires
        v matches JsonV::Object(e) && obj_get(e, "$ref"@) == Some(JsonV::Str(r)),
        resolve_ref_spec(schema, r) == Some(target),
        jsize(schema) + jsize(v) <= usize::MAX,
        jsize(schema) + jsize(target) <= usize::MAX,
    ensures
        resolved(schema, v) == resolved(schema, target),
{
    let b1 = ref_budget(schema, v);
    assert(b1 > 0);
    assert(resolve_fuel(schema, v, b1) == resolve_fuel(schema, target, (b1 - 1) as nat));
    if resolve_fuel(schema, target, (b1 - 1) as nat) is Some {
        lemma_ref_budget_suffices(schema, target, (b1 - 1) as nat);
    } else if resolved(schema, target) is Some {
        let b2 = ref_budget(schema, target);
        assert(resolve_fuel(schema, v, b2 + 1) == resolve_fuel(schema, target, b2));
        lemma_ref_budget_suffices(schema, v, b2 + 1);
        assert(false);
    }
}

/// The response schema (and so the output schema) of an operation whose
/// success response is a local `$ref` is that of the same operation with
/// the referenced response written in its place.
pub proof fn lemma_response_ref_reads_as_inlined(
    schema: JsonV,
    op: JsonV,
    inlined: JsonV,
    resp: JsonV,
    r: Seq<char>,
    target: JsonV,
)
    requires
        success_response(op) == Some(resp),
        resp matches JsonV::Object(e) && obj_get(e, "$ref"@) == Some(JsonV::Str(r)),
        resolve_ref_spec(schema, r) == Some(target),
        success_response(inlined) == Some(target),
        jsize(schema) + jsize(resp) <= usize::MAX,
        jsize(schema) + jsize(target) <= usize::MAX,
    ensures
        response_schema_of(schema, op) == response_schema_of(schema, inlined),
{
    lemma_ref_resolves_as_target(schema, resp, r, target);
}

} // verus!
