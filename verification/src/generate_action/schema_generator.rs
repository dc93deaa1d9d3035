//! Input and output JSON Schemas of an action, read from an OpenAPI document.
//!
//! `$ref` references are followed and `allOf` parts merged. A reference may
//! lead back to where it started; resolution therefore runs within a budget
//! derived from the size of the document, which only such chains exceed:
//! for one value `ref_budget` (`resolution_bound::lemma_ref_budget_suffices`)
//! and for every level below it `deep_budget`
//! (`deep_bound::lemma_deep_budget_suffices`). A value met again on the way, following references (`ref_path`) or going
//! down through the resolved values (`deep_path`), is reported at once: the
//! values on such a path never resolve. Both are reported as an error.
use vstd::prelude::*;

use super::error::GenerateActionError;
use crate::json::{
    add_capped, capped, entries_size_capped, json_size, jsize, clone_entries, entries_view, keys_sorted, get_arr, get_bool, get_obj, get_str, jget, obj_from,
    obj_get, obj_insert, obj_insert_exec, obj_lookup, obj_remove, obj_remove_exec, obj_set,
    values_view, Json, JsonV,
};
use super::resolution_bound::{lemma_ref_cycle_unresolved, ref_child, ref_path};
use crate::openapi::{opt_view, strings_view};

use crate::text::{
    chars_of, concat_strs, split_char, split_char_exec, starts_with, starts_with_exec, str_eq,
};

verus! {

/// The resolution budget of `v` within `schema`: three steps for each node
/// of the two (capped at the largest `usize`).
///
/// Resolution follows a chain of values, each nested in the document or in
/// `v`. A chain that meets the same value twice goes round for ever; one
/// that does not meets fewer values than there are nodes, so the budget cuts
/// off only chains that lead back to where they started
/// (`resolution_bound::lemma_ref_budget_suffices`).
pub open spec fn ref_budget(schema: JsonV, v: JsonV) -> nat {
    capped(3 * (jsize(schema) + jsize(v)) + 3)
}

/// `v` with its `$ref` followed and its `allOf` merged, within the budget
/// of the document (`None` for a chain that leads back to itself).
pub open spec fn resolved(schema: JsonV, v: JsonV) -> Option<JsonV> {
    resolve_fuel(schema, v, ref_budget(schema, v))
}

/// The budget for resolving `v` at every level within `schema`: with `n`
/// the nodes of the two, `n * n + 4 * n + 4` (capped at the largest
/// `usize`).
///
/// Going down the resolved values meets values nested in the document and
/// values made from them when `allOf` parts are merged and `enum` is given
/// as `anyOf`, at most five for each node; a value met twice on the way
/// goes round for ever and is reported as soon as it is met again
/// (`deep_path`). So the budget cuts off only such paths
/// (`deep_bound::lemma_deep_budget_suffices`).
pub open spec fn deep_budget(schema: JsonV, v: JsonV) -> nat {
    let n = jsize(schema) + jsize(v);
    capped(n * n + 4 * n + 4)
}

/// `v` resolved at every level, within the budget of the document (`None`
/// for a chain that leads back to itself).
pub open spec fn resolved_deep(schema: JsonV, v: JsonV) -> Option<JsonV> {
    resolve_deep(schema, v, deep_budget(schema, v))
}

/// The deep budget from the capped sizes of the document and of the value.
fn deep_budget_of(doc: usize, size: usize, Ghost(d): Ghost<nat>, Ghost(m): Ghost<nat>) -> (r:
    usize)
    requires
        doc == capped(d),
        size == capped(m),
    ensures
        r == capped((d + m) * (d + m) + 4 * (d + m) + 4),
{
    let sum = add_capped(doc, size);
    let ghost n: nat = d + m;
    assert(sum == capped(n)) by {
        crate::json::lemma_capped_add(d, m);
    }
    if sum > 0xFFFF_FFFF {
        assert(n >= 0x1_0000_0000);
        assert(n * n >= 0x1_0000_0000 * 0x1_0000_0000) by (nonlinear_arith)
            requires
                n >= 0x1_0000_0000,
        ;
        usize::MAX
    } else {
        let w: u128 = sum as u128;
        assert(w * w <= 0xFFFF_FFFF * 0xFFFF_FFFF) by (nonlinear_arith)
            requires
                w <= 0xFFFF_FFFF,
        ;
        let t: u128 = w * w + 4 * w + 4;
        if t > usize::MAX as u128 {
            usize::MAX
        } else {
            t as usize
        }
    }
}

/// The budget from the capped sizes of the document and of the value.
fn budget_of(doc: usize, size: usize, Ghost(d): Ghost<nat>, Ghost(n): Ghost<nat>) -> (r: usize)
    requires
        doc == capped(d),
        size == capped(n),
    ensures
        r == capped(3 * (d + n) + 3),
{
    let sum = add_capped(doc, size);
    let twice = add_capped(sum, sum);
    let thrice = add_capped(twice, sum);
    add_capped(thrice, 3)
}

/// The component a local reference `#/components/<section>/<name>/...` names.
pub open spec fn resolve_ref_spec(schema: JsonV, ref_path: Seq<char>) -> Option<JsonV> {
    if starts_with(ref_path, "#/components/"@) {
        let parts = split_char(ref_path, '/');
        if parts.len() >= 4 {
            match jget(schema, "components"@) {
                Some(components) => match jget(components, parts[2]) {
                    Some(section) => jget(section, parts[3]),
                    None => None,
                },
                None => None,
            }
        } else {
            None
        }
    } else {
        None
    }
}

/// Resolve `$ref` references in OpenAPI schemas.
pub fn resolve_ref(schema: &Json, ref_path: &str) -> (r: Option<Json>)
    ensures
        match resolve_ref_spec(schema@, ref_path@) {
            Some(v) => r matches Some(j) && j@ == v,
            None => r is None,
        },
{
    let rc = chars_of(ref_path);
    let prefix = chars_of("#/components/");
    if !starts_with_exec(&rc, &prefix) {
        return None;
    }
    let parts = split_char_exec(&rc, '/');
    if parts.len() < 4 {
        return None;
    }
    let section_name = crate::text::string_of(&parts[2]);
    let component_name = crate::text::string_of(&parts[3]);
    match schema.get("components") {
        Some(components) => match components.get(section_name.as_str()) {
            Some(section) => match section.get(component_name.as_str()) {
                Some(component) => Some(component.deep_clone()),
                None => None,
            },
            None => None,
        },
        None => None,
    }
}

// ---------------------------------------------------------------------------
// Following references and merging `allOf`
// ---------------------------------------------------------------------------

/// Each entry of `add` stored into `e`, in order.
pub open spec fn insert_all(e: Seq<(Seq<char>, JsonV)>, add: Seq<(Seq<char>, JsonV)>) -> Seq<
    (Seq<char>, JsonV),
>
    decreases add.len(),
{
    if add.len() == 0 {
        e
    } else {
        obj_insert(insert_all(e, add.drop_last()), add.last().0, add.last().1)
    }
}

/// The strings of `req` appended to `list`, each unless already present.
pub open spec fn add_missing_strs(list: Seq<JsonV>, req: Seq<JsonV>) -> Seq<JsonV>
    decreases req.len(),
{
    if req.len() == 0 {
        list
    } else {
        let prev = add_missing_strs(list, req.drop_last());
        match req.last() {
            JsonV::Str(s) => if prev.contains(JsonV::Str(s)) {
                prev
            } else {
                prev.push(JsonV::Str(s))
            },
            _ => prev,
        }
    }
}

/// The entries of `part` other than `properties` and `required`, stored into `e`.
pub open spec fn insert_others(e: Seq<(Seq<char>, JsonV)>, part: Seq<(Seq<char>, JsonV)>) -> Seq<
    (Seq<char>, JsonV),
>
    decreases part.len(),
{
    if part.len() == 0 {
        e
    } else {
        let prev = insert_others(e, part.drop_last());
        let (k, v) = part.last();
        if k != "properties"@ && k != "required"@ {
            obj_insert(prev, k, v)
        } else {
            prev
        }
    }
}

/// One `allOf` part merged into the schema built so far: its properties
/// added to the merged properties, its required names added to the merged
/// ones (each once), and its other fields copied.
pub open spec fn merge_part(merged: Seq<(Seq<char>, JsonV)>, part: Seq<(Seq<char>, JsonV)>) -> Seq<
    (Seq<char>, JsonV),
> {
    let m1 = match obj_get(part, "properties"@) {
        Some(JsonV::Object(props)) => match obj_get(merged, "properties"@) {
            Some(JsonV::Object(mp)) => obj_insert(merged, "properties"@, JsonV::Object(insert_all(mp, props))),
            _ => obj_insert(merged, "properties"@, JsonV::Object(props)),
        },
        _ => merged,
    };
    let m2 = match obj_get(part, "required"@) {
        Some(JsonV::Array(req)) => match obj_get(m1, "required"@) {
            Some(JsonV::Array(mr)) => obj_insert(m1, "required"@, JsonV::Array(add_missing_strs(mr, req))),
            _ => obj_insert(m1, "required"@, JsonV::Array(req)),
        },
        _ => m1,
    };
    insert_others(m2, part)
}

/// A schema value with its `$ref` followed (repeatedly) and its `allOf`
/// parts merged, within `fuel` levels of nesting (`None` when they do not
/// suffice).
pub open spec fn resolve_fuel(schema: JsonV, v: JsonV, fuel: nat) -> Option<JsonV>
    decreases fuel, 0nat,
{
    if fuel == 0 {
        None
    } else {
        match v {
            JsonV::Object(obj) => {
                let via_ref = match obj_get(obj, "$ref"@) {
                    Some(JsonV::Str(r)) => resolve_ref_spec(schema, r),
                    _ => None,
                };
                match via_ref {
                    Some(resolved) => resolve_fuel(schema, resolved, (fuel - 1) as nat),
                    None => match obj_get(obj, "allOf"@) {
                        Some(JsonV::Array(parts)) => match merge_parts(
                            schema,
                            parts,
                            (fuel - 1) as nat,
                        ) {
                            Some(m) => Some(JsonV::Object(m)),
                            None => None,
                        },
                        _ => Some(v),
                    },
                }
            },
            _ => Some(v),
        }
    }
}

/// The `allOf` parts, each resolved, merged in order.
pub open spec fn merge_parts(schema: JsonV, parts: Seq<JsonV>, fuel: nat) -> Option<
    Seq<(Seq<char>, JsonV)>,
>
    decreases fuel, parts.len() + 1,
{
    if parts.len() == 0 {
        Some(Seq::empty())
    } else {
        match merge_parts(schema, parts.drop_last(), fuel) {
            None => None,
            Some(m) => match resolve_fuel(schema, parts.last(), fuel) {
                None => None,
                Some(JsonV::Object(po)) => Some(merge_part(m, po)),
                Some(_) => Some(m),
            },
        }
    }
}

fn insert_all_exec(e: &mut Vec<(String, Json)>, add: &Vec<(String, Json)>)
    ensures
        entries_view(final(e)@) == insert_all(entries_view(old(e)@), entries_view(add@)),
{
    let ghost av = entries_view(add@);
    let ghost e0 = entries_view(e@);
    let mut i: usize = 0;
    assert(av.take(0) =~= Seq::<(Seq<char>, JsonV)>::empty());
    while i < add.len()
        invariant
            i <= add.len(),
            av == entries_view(add@),
            e0 == entries_view(old(e)@),
            entries_view(e@) == insert_all(e0, av.take(i as int)),
        decreases add.len() - i,
    {
        assert(av.take(i + 1).drop_last() =~= av.take(i as int));
        assert(av.take(i + 1).last() == av[i as int]);
        crate::json::obj_insert_exec(e, add[i].0.clone(), add[i].1.deep_clone());
        i = i + 1;
    }
    assert(av.take(add.len() as int) =~= av);
}

fn contains_str_value(list: &Vec<Json>, s: &String) -> (r: bool)
    ensures
        r == values_view(list@).contains(JsonV::Str(s@)),
{
    let mut i: usize = 0;
    while i < list.len()
        invariant
            i <= list.len(),
            forall|j: int| 0 <= j < i ==> list@[j]@ != JsonV::Str(s@),
        decreases list.len() - i,
    {
        match &list[i] {
            Json::String(t) => {
                if str_eq(t.as_str(), s.as_str()) {
                    assert(values_view(list@)[i as int] == JsonV::Str(s@));
                    return true;
                }
            },
            _ => {},
        }
        i = i + 1;
    }
    proof {
        if values_view(list@).contains(JsonV::Str(s@)) {
            let j = choose|j: int|
                0 <= j < values_view(list@).len() && values_view(list@)[j] == JsonV::Str(s@);
            assert(list@[j]@ == JsonV::Str(s@));
        }
    }
    false
}

fn add_missing_strs_exec(list: &mut Vec<Json>, req: &Vec<Json>)
    ensures
        values_view(final(list)@) == add_missing_strs(values_view(old(list)@), values_view(req@)),
{
    let ghost rv = values_view(req@);
    let ghost l0 = values_view(list@);
    let mut i: usize = 0;
    assert(rv.take(0) =~= Seq::<JsonV>::empty());
    while i < req.len()
        invariant
            i <= req.len(),
            rv == values_view(req@),
            l0 == values_view(old(list)@),
            values_view(list@) == add_missing_strs(l0, rv.take(i as int)),
        decreases req.len() - i,
    {
        assert(rv.take(i + 1).drop_last() =~= rv.take(i as int));
        assert(rv.take(i + 1).last() == rv[i as int]);
        match &req[i] {
            Json::String(s) => {
                if !contains_str_value(list, s) {
                    let ghost p = values_view(list@);
                    list.push(Json::String(s.clone()));
                    assert(values_view(list@) =~= p.push(JsonV::Str(s@)));
                }
            },
            _ => {},
        }
        i = i + 1;
    }
    assert(rv.take(req.len() as int) =~= rv);
}

fn insert_others_exec(e: &mut Vec<(String, Json)>, part: &Vec<(String, Json)>)
    ensures
        entries_view(final(e)@) == insert_others(entries_view(old(e)@), entries_view(part@)),
{
    let ghost pv = entries_view(part@);
    let ghost e0 = entries_view(e@);
    let mut i: usize = 0;
    assert(pv.take(0) =~= Seq::<(Seq<char>, JsonV)>::empty());
    while i < part.len()
        invariant
            i <= part.len(),
            pv == entries_view(part@),
            e0 == entries_view(old(e)@),
            entries_view(e@) == insert_others(e0, pv.take(i as int)),
        decreases part.len() - i,
    {
        assert(pv.take(i + 1).drop_last() =~= pv.take(i as int));
        assert(pv.take(i + 1).last() == pv[i as int]);
        let k = part[i].0.as_str();
        if !str_eq(k, "properties") && !str_eq(k, "required") {
            crate::json::obj_insert_exec(e, part[i].0.clone(), part[i].1.deep_clone());
        }
        i = i + 1;
    }
    assert(pv.take(part.len() as int) =~= pv);
}

fn merge_part_exec(merged: &mut Vec<(String, Json)>, part: &Vec<(String, Json)>)
    ensures
        entries_view(final(merged)@) == merge_part(entries_view(old(merged)@), entries_view(part@)),
{
    match obj_lookup(part, "properties") {
        Some(Json::Object(props)) => {
            proof {
                crate::json::lemma_object_view(*props);
            }
            let existing: Option<Vec<(String, Json)>> = match obj_lookup(merged, "properties") {
                Some(Json::Object(mp)) => {
                    proof {
                        crate::json::lemma_object_view(*mp);
                    }
                    Some(clone_entries(mp))
                },
                _ => None,
            };
            match existing {
                Some(mut mp) => {
                    insert_all_exec(&mut mp, props);
                    obj_set(merged, "properties", Json::object(mp));
                },
                None => {
                    obj_set(merged, "properties", Json::object(clone_entries(props)));
                },
            }
        },
        _ => {},
    }
    match obj_lookup(part, "required") {
        Some(Json::Array(req)) => {
            proof {
                crate::json::lemma_array_view(*req);
            }
            let existing: Option<Vec<Json>> = match obj_lookup(merged, "required") {
                Some(Json::Array(mr)) => {
                    proof {
                        crate::json::lemma_array_view(*mr);
                    }
                    Some(crate::json::clone_values(mr))
                },
                _ => None,
            };
            match existing {
                Some(mut mr) => {
                    add_missing_strs_exec(&mut mr, req);
                    obj_set(merged, "required", Json::array(mr));
                },
                None => {
                    obj_set(merged, "required", Json::array(crate::json::clone_values(req)));
                },
            }
        },
        _ => {},
    }
    insert_others_exec(merged, part);
}

/// Resolve a schema value within `fuel` levels of nesting.
pub fn resolve_schema_fuel(schema: &Json, value: &Json, fuel: usize) -> (r: Option<Json>)
    ensures
        match resolve_fuel(schema@, value@, fuel as nat) {
            Some(v) => r matches Some(j) && j@ == v,
            None => r is None,
        },
{
    let mut chain: Vec<Json> = Vec::new();
    assert(values_view(chain@) =~= Seq::<JsonV>::empty());
    resolve_chain(schema, value, fuel, &mut chain)
}

/// Resolve `value`, reached through the values of `chain` (each one that
/// resolving the one before goes on to); a value met again is reported at
/// once, as it never resolves.
fn resolve_chain(schema: &Json, value: &Json, fuel: usize, chain: &mut Vec<Json>) -> (r: Option<
    Json,
>)
    requires
        ref_path(schema@, values_view(old(chain)@)),
        values_view(old(chain)@).len() > 0 ==> ref_child(
            schema@,
            values_view(old(chain)@).last(),
            value@,
        ),
    ensures
        values_view(final(chain)@) == values_view(old(chain)@),
        match resolve_fuel(schema@, value@, fuel as nat) {
            Some(v) => r matches Some(j) && j@ == v,
            None => r is None,
        },
    decreases fuel, 0nat,
{
    if fuel == 0 {
        return None;
    }
    let ghost cv = values_view(chain@);
    if let Some(k) = position_of(chain, value) {
        proof {
            assert(cv[k as int] == value@);
            lemma_ref_cycle_unresolved(schema@, cv, k as int, fuel as nat);
            assert(resolve_fuel(schema@, cv[k as int], fuel as nat) is None);
        }
        return None;
    }
    match value {
        Json::Object(obj) => {
            proof {
                crate::json::lemma_object_view(*obj);
            }
            let via_ref: Option<Json> = match obj_lookup(obj, "$ref") {
                Some(Json::String(r)) => resolve_ref(schema, r.as_str()),
                _ => None,
            };
            match via_ref {
                Some(resolved) => {
                    chain.push(value.deep_clone());
                    proof {
                        lemma_chain_extends(schema@, cv, value@);
                        assert(values_view(chain@) =~= cv.push(value@));
                    }
                    let res = resolve_chain(schema, &resolved, fuel - 1, chain);
                    let ghost mid = chain@;
                    chain.pop();
                    proof {
                        lemma_chain_restored(mid, chain@, cv, value@);
                    }
                    res
                },
                None => match obj_lookup(obj, "allOf") {
                    Some(Json::Array(parts)) => {
                        proof {
                            crate::json::lemma_array_view(*parts);
                        }
                        let ghost pv = values_view(parts@);
                        chain.push(value.deep_clone());
                        proof {
                            lemma_chain_extends(schema@, cv, value@);
                            assert(values_view(chain@) =~= cv.push(value@));
                            assert forall|i: int| 0 <= i < pv.len() implies ref_child(
                                schema@,
                                value@,
                                #[trigger] pv[i],
                            ) by {
                                assert(pv[i] == pv[i]);
                            }
                        }
                        let res = merge_parts_exec(schema, parts, fuel - 1, chain);
                        let ghost mid = chain@;
                        chain.pop();
                        proof {
                            lemma_chain_restored(mid, chain@, cv, value@);
                        }
                        match res {
                            Some(m) => Some(Json::object(m)),
                            None => None,
                        }
                    },
                    _ => Some(value.deep_clone()),
                },
            }
        },
        _ => Some(value.deep_clone()),
    }
}

proof fn lemma_chain_extends(schema: JsonV, cv: Seq<JsonV>, v: JsonV)
    requires
        ref_path(schema, cv),
        cv.len() > 0 ==> ref_child(schema, cv.last(), v),
    ensures
        ref_path(schema, cv.push(v)),
{
    let p = cv.push(v);
    assert forall|j: int| 0 <= j < p.len() - 1 implies #[trigger] ref_child(schema, p[j], p[j + 1]) by {
        if j < cv.len() - 1 {
            assert(ref_child(schema, cv[j], cv[j + 1]));
        }
    }
}

proof fn lemma_chain_restored(mid: Seq<Json>, now: Seq<Json>, cv: Seq<JsonV>, v: JsonV)
    requires
        values_view(mid) == cv.push(v),
        now == mid.drop_last(),
    ensures
        values_view(now) == cv,
{
    assert(values_view(mid).len() == mid.len());
    assert(mid.len() == cv.len() + 1);
    assert(now.len() == cv.len());
    assert forall|i: int| 0 <= i < cv.len() implies values_view(now)[i] == cv[i] by {
        assert(now[i] == mid[i]);
        assert(values_view(mid)[i] == mid[i]@);
        assert(values_view(mid)[i] == cv.push(v)[i]);
    }
    assert(values_view(now) =~= cv);
}

fn merge_parts_exec(schema: &Json, parts: &Vec<Json>, fuel: usize, chain: &mut Vec<Json>) -> (r:
    Option<Vec<(String, Json)>>)
    requires
        ref_path(schema@, values_view(old(chain)@)),
        values_view(old(chain)@).len() > 0 ==> forall|i: int|
            0 <= i < parts@.len() ==> ref_child(
                schema@,
                values_view(old(chain)@).last(),
                #[trigger] values_view(parts@)[i],
            ),
    ensures
        values_view(final(chain)@) == values_view(old(chain)@),
        match merge_parts(schema@, values_view(parts@), fuel as nat) {
            Some(m) => r matches Some(e) && entries_view(e@) == m,
            None => r is None,
        },
    decreases fuel, parts@.len() + 1,
{
    let ghost pv = values_view(parts@);
    let ghost cv = values_view(chain@);
    let mut merged: Vec<(String, Json)> = Vec::new();
    let mut i: usize = 0;
    assert(pv.take(0) =~= Seq::<JsonV>::empty());
    assert(entries_view(merged@) =~= Seq::empty());
    while i < parts.len()
        invariant
            i <= parts.len(),
            pv == values_view(parts@),
            values_view(chain@) == cv,
            cv == values_view(old(chain)@),
            ref_path(schema@, cv),
            cv.len() > 0 ==> forall|j: int|
                0 <= j < parts@.len() ==> ref_child(schema@, cv.last(), #[trigger] pv[j]),
            merge_parts(schema@, pv.take(i as int), fuel as nat) == Some(entries_view(merged@)),
        decreases parts.len() - i,
    {
        assert(pv.take(i + 1).drop_last() =~= pv.take(i as int));
        assert(pv.take(i + 1).last() == pv[i as int]);
        assert(pv[i as int] == parts@[i as int]@);
        match resolve_chain(schema, &parts[i], fuel, chain) {
            None => {
                proof {
                    lemma_merge_none_extends(schema@, pv, i + 1, fuel as nat);
                }
                return None;
            },
            Some(Json::Object(po)) => {
                proof {
                    crate::json::lemma_object_view(po);
                }
                merge_part_exec(&mut merged, &po);
            },
            Some(_) => {},
        }
        i = i + 1;
    }
    assert(pv.take(parts.len() as int) =~= pv);
    Some(merged)
}

pub(crate) proof fn lemma_merge_none_extends(schema: JsonV, parts: Seq<JsonV>, i: int, fuel: nat)
    requires
        0 <= i <= parts.len(),
        merge_parts(schema, parts.take(i), fuel) is None,
    ensures
        merge_parts(schema, parts, fuel) is None,
    decreases parts.len() - i,
{
    if i < parts.len() {
        assert(parts.take(i + 1).drop_last() =~= parts.take(i));
        lemma_merge_none_extends(schema, parts, i + 1, fuel);
    } else {
        assert(parts.take(i) =~= parts);
    }
}

/// Resolve a schema value, following `$ref` references and merging `allOf`
/// (`None` where the references lead back to where they started).
pub fn resolve_schema(schema: &Json, value: &Json) -> (r: Option<Json>)
    ensures
        match resolved(schema@, value@) {
            Some(v) => r matches Some(j) && j@ == v,
            None => r is None,
        },
{
    let doc = json_size(schema);
    resolve_within(schema, value, doc)
}

fn resolve_within(schema: &Json, value: &Json, doc: usize) -> (r: Option<Json>)
    requires
        doc == capped(jsize(schema@)),
    ensures
        match resolved(schema@, value@) {
            Some(v) => r matches Some(j) && j@ == v,
            None => r is None,
        },
{
    let size = json_size(value);
    let fuel = budget_of(doc, size, Ghost(jsize(schema@)), Ghost(jsize(value@)));
    resolve_schema_fuel(schema, value, fuel)
}

// ---------------------------------------------------------------------------
// `enum` as `anyOf`
// ---------------------------------------------------------------------------

/// The `anyOf` alternatives for the values of an `enum`: one `{"const": s}`
/// for each string `s`, in order; other values are left out.
pub open spec fn enum_const_items(vals: Seq<JsonV>) -> Seq<JsonV>
    decreases vals.len(),
{
    if vals.len() == 0 {
        Seq::empty()
    } else {
        let prev = enum_const_items(vals.drop_last());
        match vals.last() {
            JsonV::Str(s) => prev.push(JsonV::Object(seq![("const"@, JsonV::Str(s))])),
            _ => prev,
        }
    }
}

/// A schema object with its `enum` array replaced by `anyOf` (dropped where
/// it holds no string).
pub open spec fn enum_to_anyof(e: Seq<(Seq<char>, JsonV)>) -> Seq<(Seq<char>, JsonV)> {
    match obj_get(e, "enum"@) {
        Some(JsonV::Array(vals)) => {
            let rest = obj_remove(e, "enum"@);
            let items = enum_const_items(vals);
            if items.len() > 0 {
                obj_insert(rest, "anyOf"@, JsonV::Array(items))
            } else {
                rest
            }
        },
        _ => e,
    }
}

/// Convert enum fields to anyOf structure for better UX.
pub fn convert_enum_to_anyof(schema: &mut Vec<(String, Json)>)
    ensures
        entries_view(final(schema)@) == enum_to_anyof(entries_view(old(schema)@)),
{
    let vals: Vec<Json> = match obj_lookup(schema, "enum") {
        Some(Json::Array(v)) => {
            proof {
                crate::json::lemma_array_view(*v);
            }
            crate::json::clone_values(v)
        },
        _ => {
            return ;
        },
    };
    let ghost vv = values_view(vals@);
    obj_remove_exec(schema, "enum");
    let mut items: Vec<Json> = Vec::new();
    let mut i: usize = 0;
    assert(vv.take(0) =~= Seq::<JsonV>::empty());
    assert(values_view(items@) =~= Seq::<JsonV>::empty());
    while i < vals.len()
        invariant
            i <= vals.len(),
            vv == values_view(vals@),
            values_view(items@) == enum_const_items(vv.take(i as int)),
        decreases vals.len() - i,
    {
        assert(vv.take(i + 1).drop_last() =~= vv.take(i as int));
        assert(vv.take(i + 1).last() == vv[i as int]);
        match &vals[i] {
            Json::String(s) => {
                let mut item: Vec<(String, Json)> = Vec::new();
                assert(entries_view(item@) =~= Seq::<(Seq<char>, JsonV)>::empty());
                obj_set(&mut item, "const", Json::String(s.clone()));
                let ghost before = values_view(items@);
                let one = Json::object(item);
                assert(one@ == JsonV::Object(seq![("const"@, JsonV::Str(s@))]));
                items.push(one);
                assert(values_view(items@) =~= before.push(JsonV::Object(seq![("const"@, JsonV::Str(s@))])));
            },
            _ => {},
        }
        i = i + 1;
    }
    assert(vv.take(vals.len() as int) =~= vv);
    if items.len() > 0 {
        obj_set(schema, "anyOf", Json::array(items));
    }
}

// ---------------------------------------------------------------------------
// Resolving all the way down
// ---------------------------------------------------------------------------

/// A value with `$ref` and `allOf` resolved at every level and each object's
/// `enum` given as `anyOf`, within `fuel` levels (`None` when they do not
/// suffice).
pub open spec fn resolve_deep(schema: JsonV, v: JsonV, fuel: nat) -> Option<JsonV>
    decreases fuel, 0nat,
{
    if fuel == 0 {
        None
    } else {
        match resolved(schema, v) {
            None => None,
            Some(JsonV::Object(obj)) => match resolve_deep_entries(
                schema,
                enum_to_anyof(obj),
                (fuel - 1) as nat,
            ) {
                Some(e) => Some(JsonV::Object(e)),
                None => None,
            },
            Some(JsonV::Array(a)) => match resolve_deep_values(schema, a, (fuel - 1) as nat) {
                Some(s) => Some(JsonV::Array(s)),
                None => None,
            },
            Some(r) => Some(r),
        }
    }
}

/// The entries with each value resolved all the way down, stored in order
/// into an empty object.
pub open spec fn resolve_deep_entries(schema: JsonV, e: Seq<(Seq<char>, JsonV)>, fuel: nat) -> Option<
    Seq<(Seq<char>, JsonV)>,
>
    decreases fuel, e.len() + 1,
{
    if e.len() == 0 {
        Some(Seq::empty())
    } else {
        match resolve_deep_entries(schema, e.drop_last(), fuel) {
            None => None,
            Some(m) => match resolve_deep(schema, e.last().1, fuel) {
                None => None,
                Some(v) => Some(obj_insert(m, e.last().0, v)),
            },
        }
    }
}

/// The values, each resolved all the way down.
pub open spec fn resolve_deep_values(schema: JsonV, s: Seq<JsonV>, fuel: nat) -> Option<Seq<JsonV>>
    decreases fuel, s.len() + 1,
{
    if s.len() == 0 {
        Some(Seq::empty())
    } else {
        match resolve_deep_values(schema, s.drop_last(), fuel) {
            None => None,
            Some(m) => match resolve_deep(schema, s.last(), fuel) {
                None => None,
                Some(v) => Some(m.push(v)),
            },
        }
    }
}

fn resolve_deep_exec(
    schema: &Json,
    value: &Json,
    fuel: usize,
    doc: usize,
    anc: &mut Vec<Json>,
) -> (r: Option<Json>)
    requires
        doc == capped(jsize(schema@)),
        deep_path(schema@, values_view(old(anc)@)),
        values_view(old(anc)@).len() > 0 ==> deep_child(
            schema@,
            values_view(old(anc)@).last(),
            value@,
        ),
    ensures
        values_view(final(anc)@) == values_view(old(anc)@),
        match resolve_deep(schema@, value@, fuel as nat) {
            Some(v) => r matches Some(j) && j@ == v,
            None => r is None,
        },
    decreases fuel, 0nat,
{
    if fuel == 0 {
        return None;
    }
    let ghost av = values_view(anc@);
    if let Some(k) = position_of(anc, value) {
        proof {
            assert(av[k as int] == value@);
            lemma_cycle_unresolved(schema@, av, k as int, fuel as nat);
            assert(resolve_deep(schema@, av[k as int], fuel as nat) is None);
        }
        return None;
    }
    match resolve_within(schema, value, doc) {
        None => None,
        Some(Json::Object(obj)) => {
            proof {
                crate::json::lemma_object_view(obj);
            }
            let ghost o = entries_view(obj@);
            let mut obj = obj;
            convert_enum_to_anyof(&mut obj);
            let ghost ev = entries_view(obj@);
            anc.push(value.deep_clone());
            proof {
                let p = values_view(anc@);
                assert(p =~= av.push(value@));
                assert forall|j: int| 0 <= j < p.len() - 1 implies #[trigger] deep_child(
                    schema@,
                    p[j],
                    p[j + 1],
                ) by {
                    if j < av.len() - 1 {
                        assert(deep_child(schema@, av[j], av[j + 1]));
                    }
                }
                assert forall|i: int| 0 <= i < ev.len() implies deep_child(
                    schema@,
                    p.last(),
                    #[trigger] ev[i].1,
                ) by {
                    assert(enum_to_anyof(o)[i].1 == ev[i].1);
                }
            }
            let res = resolve_deep_entries_exec(schema, &obj, fuel - 1, doc, anc);
            let ghost mid = anc@;
            anc.pop();
            proof {
                assert(anc@ =~= mid.drop_last());
                assert(values_view(mid) == av.push(value@));
                assert forall|i: int| 0 <= i < av.len() implies values_view(anc@)[i] == av[i] by {
                    assert(values_view(mid)[i] == mid[i]@);
                }
                assert(values_view(anc@) =~= av);
            }
            match res {
                Some(e) => Some(Json::object(e)),
                None => None,
            }
        },
        Some(Json::Array(a)) => {
            proof {
                crate::json::lemma_array_view(a);
            }
            let ghost sv = values_view(a@);
            anc.push(value.deep_clone());
            proof {
                let p = values_view(anc@);
                assert(p =~= av.push(value@));
                assert forall|j: int| 0 <= j < p.len() - 1 implies #[trigger] deep_child(
                    schema@,
                    p[j],
                    p[j + 1],
                ) by {
                    if j < av.len() - 1 {
                        assert(deep_child(schema@, av[j], av[j + 1]));
                    }
                }
                assert forall|i: int| 0 <= i < sv.len() implies deep_child(
                    schema@,
                    p.last(),
                    #[trigger] sv[i],
                ) by {
                    assert(sv[i] == sv[i]);
                }
            }
            let res = resolve_deep_values_exec(schema, &a, fuel - 1, doc, anc);
            let ghost mid = anc@;
            anc.pop();
            proof {
                assert(anc@ =~= mid.drop_last());
                assert(values_view(mid) == av.push(value@));
                assert forall|i: int| 0 <= i < av.len() implies values_view(anc@)[i] == av[i] by {
                    assert(values_view(mid)[i] == mid[i]@);
                }
                assert(values_view(anc@) =~= av);
            }
            match res {
                Some(s) => Some(Json::array(s)),
                None => None,
            }
        },
        Some(other) => Some(other),
    }
}

fn resolve_deep_entries_exec(
    schema: &Json,
    e: &Vec<(String, Json)>,
    fuel: usize,
    doc: usize,
    anc: &mut Vec<Json>,
) -> (r: Option<Vec<(String, Json)>>)
    requires
        doc == capped(jsize(schema@)),
        deep_path(schema@, values_view(old(anc)@)),
        values_view(old(anc)@).len() > 0 ==> forall|i: int|
            0 <= i < e@.len() ==> deep_child(
                schema@,
                values_view(old(anc)@).last(),
                #[trigger] entries_view(e@)[i].1,
            ),
    ensures
        values_view(final(anc)@) == values_view(old(anc)@),
        match resolve_deep_entries(schema@, entries_view(e@), fuel as nat) {
            Some(m) => r matches Some(out) && entries_view(out@) == m,
            None => r is None,
        },
    decreases fuel, e@.len() + 1,
{
    let ghost ev = entries_view(e@);
    let ghost av = values_view(anc@);
    let mut out: Vec<(String, Json)> = Vec::new();
    let mut i: usize = 0;
    assert(ev.take(0) =~= Seq::<(Seq<char>, JsonV)>::empty());
    assert(entries_view(out@) =~= Seq::<(Seq<char>, JsonV)>::empty());
    while i < e.len()
        invariant
            i <= e.len(),
            ev == entries_view(e@),
            doc == capped(jsize(schema@)),
            values_view(anc@) == av,
            av == values_view(old(anc)@),
            deep_path(schema@, av),
            av.len() > 0 ==> forall|j: int|
                0 <= j < e@.len() ==> deep_child(schema@, av.last(), #[trigger] ev[j].1),
            resolve_deep_entries(schema@, ev.take(i as int), fuel as nat) == Some(entries_view(out@)),
        decreases e.len() - i,
    {
        assert(ev.take(i + 1).drop_last() =~= ev.take(i as int));
        assert(ev.take(i + 1).last() == ev[i as int]);
        assert(ev[i as int].1 == e@[i as int].1@);
        match resolve_deep_exec(schema, &e[i].1, fuel, doc, anc) {
            None => {
                proof {
                    lemma_deep_entries_none_extends(schema@, ev, i + 1, fuel as nat);
                }
                return None;
            },
            Some(v) => {
                obj_insert_exec(&mut out, e[i].0.clone(), v);
            },
        }
        i = i + 1;
    }
    assert(ev.take(e.len() as int) =~= ev);
    Some(out)
}

fn resolve_deep_values_exec(
    schema: &Json,
    s: &Vec<Json>,
    fuel: usize,
    doc: usize,
    anc: &mut Vec<Json>,
) -> (r: Option<Vec<Json>>)
    requires
        doc == capped(jsize(schema@)),
        deep_path(schema@, values_view(old(anc)@)),
        values_view(old(anc)@).len() > 0 ==> forall|i: int|
            0 <= i < s@.len() ==> deep_child(
                schema@,
                values_view(old(anc)@).last(),
                #[trigger] values_view(s@)[i],
            ),
    ensures
        values_view(final(anc)@) == values_view(old(anc)@),
        match resolve_deep_values(schema@, values_view(s@), fuel as nat) {
            Some(m) => r matches Some(out) && values_view(out@) == m,
            None => r is None,
        },
    decreases fuel, s@.len() + 1,
{
    let ghost sv = values_view(s@);
    let ghost av = values_view(anc@);
    let mut out: Vec<Json> = Vec::new();
    let mut i: usize = 0;
    assert(sv.take(0) =~= Seq::<JsonV>::empty());
    assert(values_view(out@) =~= Seq::<JsonV>::empty());
    while i < s.len()
        invariant
            i <= s.len(),
            sv == values_view(s@),
            doc == capped(jsize(schema@)),
            values_view(anc@) == av,
            av == values_view(old(anc)@),
            deep_path(schema@, av),
            av.len() > 0 ==> forall|j: int|
                0 <= j < s@.len() ==> deep_child(schema@, av.last(), #[trigger] sv[j]),
            resolve_deep_values(schema@, sv.take(i as int), fuel as nat) == Some(values_view(out@)),
        decreases s.len() - i,
    {
        assert(sv.take(i + 1).drop_last() =~= sv.take(i as int));
        assert(sv.take(i + 1).last() == sv[i as int]);
        assert(sv[i as int] == s@[i as int]@);
        match resolve_deep_exec(schema, &s[i], fuel, doc, anc) {
            None => {
                proof {
                    lemma_deep_values_none_extends(schema@, sv, i + 1, fuel as nat);
                }
                return None;
            },
            Some(v) => {
                let ghost before = values_view(out@);
                out.push(v);
                assert(values_view(out@) =~= before.push(v@));
            },
        }
        i = i + 1;
    }
    assert(sv.take(s.len() as int) =~= sv);
    Some(out)
}

/// `w` is a value that resolving `v` at every level goes on into: an entry
/// of the resolved object (its `enum` given as `anyOf`) or an element of the
/// resolved array.
pub open spec fn deep_child(schema: JsonV, v: JsonV, w: JsonV) -> bool {
    match resolved(schema, v) {
        Some(JsonV::Object(obj)) => exists|i: int|
            0 <= i < enum_to_anyof(obj).len() && #[trigger] enum_to_anyof(obj)[i].1 == w,
        Some(JsonV::Array(a)) => exists|i: int| 0 <= i < a.len() && #[trigger] a[i] == w,
        _ => false,
    }
}

/// Each value of `path` is one that resolving the one before goes on into.
pub open spec fn deep_path(schema: JsonV, path: Seq<JsonV>) -> bool {
    forall|j: int|
        0 <= j < path.len() - 1 ==> #[trigger] deep_child(schema, path[j], path[j + 1])
}

proof fn lemma_entries_unresolved_at(schema: JsonV, e: Seq<(Seq<char>, JsonV)>, i: int, fuel: nat)
    requires
        0 <= i < e.len(),
        resolve_deep(schema, e[i].1, fuel) is None,
    ensures
        resolve_deep_entries(schema, e, fuel) is None,
{
    assert(e.take(i + 1).drop_last() =~= e.take(i));
    assert(e.take(i + 1).last() == e[i]);
    assert(resolve_deep_entries(schema, e.take(i + 1), fuel) is None);
    lemma_deep_entries_none_extends(schema, e, i + 1, fuel);
}

proof fn lemma_values_unresolved_at(schema: JsonV, s: Seq<JsonV>, i: int, fuel: nat)
    requires
        0 <= i < s.len(),
        resolve_deep(schema, s[i], fuel) is None,
    ensures
        resolve_deep_values(schema, s, fuel) is None,
{
    assert(s.take(i + 1).drop_last() =~= s.take(i));
    assert(s.take(i + 1).last() == s[i]);
    assert(resolve_deep_values(schema, s.take(i + 1), fuel) is None);
    lemma_deep_values_none_extends(schema, s, i + 1, fuel);
}

/// A value goes unresolved within one more level when one that it goes on
/// into goes unresolved.
proof fn lemma_child_unresolved(schema: JsonV, v: JsonV, w: JsonV, fuel: nat)
    requires
        deep_child(schema, v, w),
        resolve_deep(schema, w, fuel) is None,
    ensures
        resolve_deep(schema, v, fuel + 1) is None,
{
    match resolved(schema, v) {
        Some(JsonV::Object(obj)) => {
            let e = enum_to_anyof(obj);
            let i = choose|i: int| 0 <= i < e.len() && #[trigger] e[i].1 == w;
            lemma_entries_unresolved_at(schema, e, i, fuel);
        },
        Some(JsonV::Array(a)) => {
            let i = choose|i: int| 0 <= i < a.len() && #[trigger] a[i] == w;
            lemma_values_unresolved_at(schema, a, i, fuel);
        },
        _ => {},
    }
}

/// Values on a path that leads back to one of them never resolve, whatever
/// the budget.
pub(crate) proof fn lemma_cycle_unresolved(schema: JsonV, path: Seq<JsonV>, k: int, fuel: nat)
    requires
        deep_path(schema, path),
        0 <= k < path.len(),
        deep_child(schema, path.last(), path[k]),
    ensures
        forall|i: int| k <= i < path.len() ==> resolve_deep(schema, #[trigger] path[i], fuel) is None,
    decreases fuel,
{
    if fuel > 0 {
        let f1 = (fuel - 1) as nat;
        lemma_cycle_unresolved(schema, path, k, f1);
        assert forall|i: int| k <= i < path.len() implies resolve_deep(
            schema,
            #[trigger] path[i],
            fuel,
        ) is None by {
            if i + 1 < path.len() {
                assert(deep_child(schema, path[i], path[i + 1]));
                assert(resolve_deep(schema, path[i + 1], f1) is None);
                lemma_child_unresolved(schema, path[i], path[i + 1], f1);
            } else {
                assert(resolve_deep(schema, path[k], f1) is None);
                lemma_child_unresolved(schema, path[i], path[k], f1);
            }
        }
    }
}

/// The position of a value equal to `v` in `list`, if any.
fn position_of(list: &Vec<Json>, v: &Json) -> (r: Option<usize>)
    ensures
        match r {
            Some(k) => k < list.len() && list@[k as int]@ == v@,
            None => true,
        },
{
    let mut k: usize = 0;
    while k < list.len()
        invariant
            k <= list.len(),
        decreases list.len() - k,
    {
        if crate::json::json_eq(&list[k], v) {
            return Some(k);
        }
        k = k + 1;
    }
    None
}

pub(crate) proof fn lemma_deep_entries_none_extends(
    schema: JsonV,
    e: Seq<(Seq<char>, JsonV)>,
    i: int,
    fuel: nat,
)
    requires
        0 <= i <= e.len(),
        resolve_deep_entries(schema, e.take(i), fuel) is None,
    ensures
        resolve_deep_entries(schema, e, fuel) is None,
    decreases e.len() - i,
{
    if i < e.len() {
        assert(e.take(i + 1).drop_last() =~= e.take(i));
        lemma_deep_entries_none_extends(schema, e, i + 1, fuel);
    } else {
        assert(e.take(i) =~= e);
    }
}

pub(crate) proof fn lemma_deep_values_none_extends(schema: JsonV, s: Seq<JsonV>, i: int, fuel: nat)
    requires
        0 <= i <= s.len(),
        resolve_deep_values(schema, s.take(i), fuel) is None,
    ensures
        resolve_deep_values(schema, s, fuel) is None,
    decreases s.len() - i,
{
    if i < s.len() {
        assert(s.take(i + 1).drop_last() =~= s.take(i));
        lemma_deep_values_none_extends(schema, s, i + 1, fuel);
    } else {
        assert(s.take(i) =~= s);
    }
}

/// Recursively resolve `$ref` and `allOf` in a value, and convert enums to
/// `anyOf` (`None` where the references lead back to where they started).
pub fn resolve_refs_recursive(schema: &Json, value: &Json) -> (r: Option<Json>)
    ensures
        match resolved_deep(schema@, value@) {
            Some(v) => r matches Some(j) && j@ == v,
            None => r is None,
        },
{
    let doc = json_size(schema);
    let size = json_size(value);
    let fuel = deep_budget_of(doc, size, Ghost(jsize(schema@)), Ghost(jsize(value@)));
    let mut anc: Vec<Json> = Vec::new();
    assert(values_view(anc@) =~= Seq::<JsonV>::empty());
    resolve_deep_exec(schema, value, fuel, doc, &mut anc)
}

// ---------------------------------------------------------------------------
// Properties of a schema
// ---------------------------------------------------------------------------

/// `{"type": "array", "items": {"type": "object", "properties": props}}`.
pub open spec fn array_of_objects(props: Seq<(Seq<char>, JsonV)>) -> JsonV {
    JsonV::Object(
        obj_from(
            seq![
                ("type"@, JsonV::Str("array"@)),
                (
                    "items"@,
                    JsonV::Object(
                        obj_from(
                            seq![
                                ("type"@, JsonV::Str("object"@)),
                                ("properties"@, JsonV::Object(props)),
                            ],
                        ),
                    ),
                ),
            ],
        ),
    )
}

/// The properties of a schema: its own `properties`, each resolved all the
/// way down, and for an array schema whose items resolve to an object with
/// properties, an `items` entry describing that array.
pub open spec fn properties_of(schema: JsonV, sv: JsonV) -> Option<Seq<(Seq<char>, JsonV)>> {
    match resolved(schema, sv) {
        None => None,
        Some(JsonV::Object(obj)) => {
            let own = match obj_get(obj, "properties"@) {
                Some(JsonV::Object(props)) => resolve_deep_entries(
                    schema,
                    props,
                    deep_budget(schema, JsonV::Object(props)),
                ),
                _ => Some(Seq::empty()),
            };
            match own {
                None => None,
                Some(p) => if get_str(JsonV::Object(obj), "type"@) == Some("array"@) {
                    match obj_get(obj, "items"@) {
                        Some(items) => match resolved(schema, items) {
                            None => None,
                            Some(ir) => match resolved_deep(schema, ir) {
                                None => None,
                                Some(full) => match get_obj(full, "properties"@) {
                                    Some(ip) => Some(obj_insert(p, "items"@, array_of_objects(ip))),
                                    None => Some(p),
                                },
                            },
                        },
                        None => Some(p),
                    }
                } else {
                    Some(p)
                },
            }
        },
        Some(_) => Some(Seq::empty()),
    }
}

fn array_of_objects_exec(props: Vec<(String, Json)>) -> (r: Json)
    ensures
        r@ == array_of_objects(entries_view(props@)),
{
    let mut item: Vec<(String, Json)> = Vec::new();
    assert(entries_view(item@) =~= Seq::<(Seq<char>, JsonV)>::empty());
    obj_set(&mut item, "type", Json::from_str("object"));
    obj_set(&mut item, "properties", Json::object(props));
    let mut arr: Vec<(String, Json)> = Vec::new();
    assert(entries_view(arr@) =~= Seq::<(Seq<char>, JsonV)>::empty());
    obj_set(&mut arr, "type", Json::from_str("array"));
    obj_set(&mut arr, "items", Json::object(item));
    let r = Json::object(arr);
    proof {
        let e0 = Seq::<(Seq<char>, JsonV)>::empty();
        let ip = seq![("type"@, JsonV::Str("object"@)), ("properties"@, JsonV::Object(entries_view(props@)))];
        assert(ip.drop_last().drop_last() =~= e0);
        assert(ip.drop_last().last() == ("type"@, JsonV::Str("object"@)));
        assert(obj_from(ip.drop_last().drop_last()) == e0);
        assert(obj_from(ip.drop_last()) == obj_insert(e0, "type"@, JsonV::Str("object"@)));
        assert(obj_from(ip) == obj_insert(obj_insert(e0, "type"@, JsonV::Str("object"@)), "properties"@, JsonV::Object(entries_view(props@))));
        let ap = seq![("type"@, JsonV::Str("array"@)), ("items"@, JsonV::Object(obj_from(ip)))];
        assert(ap.drop_last().drop_last() =~= e0);
        assert(ap.drop_last().last() == ("type"@, JsonV::Str("array"@)));
        assert(obj_from(ap.drop_last().drop_last()) == e0);
        assert(obj_from(ap.drop_last()) == obj_insert(e0, "type"@, JsonV::Str("array"@)));
        assert(obj_from(ap) == obj_insert(obj_insert(e0, "type"@, JsonV::Str("array"@)), "items"@, JsonV::Object(obj_from(ip))));
    }
    r
}

/// Extract properties from a schema, handling `$ref`, `allOf`, and direct
/// properties (`None` where references lead back to where they started).
pub fn extract_properties(schema: &Json, schema_value: &Json) -> (r: Option<Vec<(String, Json)>>)
    ensures
        match properties_of(schema@, schema_value@) {
            Some(p) => r matches Some(e) && entries_view(e@) == p,
            None => r is None,
        },
{
    let doc = json_size(schema);
    let resolved = match resolve_within(schema, schema_value, doc) {
        None => {
            return None;
        },
        Some(v) => v,
    };
    let mut properties: Vec<(String, Json)> = Vec::new();
    assert(entries_view(properties@) =~= Seq::<(Seq<char>, JsonV)>::empty());
    match &resolved {
        Json::Object(obj) => {
            proof {
                crate::json::lemma_object_view(*obj);
            }
            match obj_lookup(obj, "properties") {
                Some(Json::Object(props)) => {
                    proof {
                        crate::json::lemma_object_view(*props);
                    }
                    let size = add_capped(1, entries_size_capped(props));
                    let fuel = deep_budget_of(
                        doc,
                        size,
                        Ghost(jsize(schema@)),
                        Ghost(jsize(JsonV::Object(entries_view(props@)))),
                    );
                    let mut anc: Vec<Json> = Vec::new();
                    assert(values_view(anc@) =~= Seq::<JsonV>::empty());
                    match resolve_deep_entries_exec(schema, props, fuel, doc, &mut anc) {
                        None => {
                            return None;
                        },
                        Some(p) => {
                            properties = p;
                        },
                    }
                },
                _ => {},
            }
            let is_array = match resolved.get("type") {
                Some(Json::String(t)) => str_eq(t.as_str(), "array"),
                _ => false,
            };
            if is_array {
                match obj_lookup(obj, "items") {
                    Some(items) => {
                        let items_resolved = match resolve_schema(schema, items) {
                            None => {
                                return None;
                            },
                            Some(v) => v,
                        };
                        let full = match resolve_refs_recursive(schema, &items_resolved) {
                            None => {
                                return None;
                            },
                            Some(v) => v,
                        };
                        match full.get("properties") {
                            Some(Json::Object(ip)) => {
                                proof {
                                    crate::json::lemma_object_view(*ip);
                                }
                                let arr = array_of_objects_exec(crate::json::clone_entries(ip));
                                obj_insert_exec(&mut properties, "items".to_owned(), arr);
                            },
                            _ => {},
                        }
                    },
                    None => {},
                }
            }
        },
        _ => {},
    }
    Some(properties)
}

// ---------------------------------------------------------------------------
// Finding an operation
// ---------------------------------------------------------------------------

/// The first method of a path item whose operation has the id `id`.
pub open spec fn find_in_methods(methods: Seq<(Seq<char>, JsonV)>, id: Seq<char>) -> Option<
    Seq<char>,
>
    decreases methods.len(),
{
    if methods.len() == 0 {
        None
    } else if get_str(methods[0].1, "operationId"@) == Some(id) {
        Some(methods[0].0)
    } else {
        find_in_methods(methods.drop_first(), id)
    }
}

/// The first (path, method) whose operation has the id `id`, paths in order.
pub open spec fn find_in_paths(paths: Seq<(Seq<char>, JsonV)>, id: Seq<char>) -> Option<
    (Seq<char>, Seq<char>),
>
    decreases paths.len(),
{
    if paths.len() == 0 {
        None
    } else {
        match paths[0].1 {
            JsonV::Object(methods) => match find_in_methods(methods, id) {
                Some(m) => Some((paths[0].0, m)),
                None => find_in_paths(paths.drop_first(), id),
            },
            _ => find_in_paths(paths.drop_first(), id),
        }
    }
}

/// What looking up an operation id gives: the (path, method) found, or the
/// schema error's message, or `None` when no operation has that id.
pub open spec fn find_by_id_spec(schema: JsonV, id: Seq<char>) -> Result<
    Option<(Seq<char>, Seq<char>)>,
    Seq<char>,
> {
    match jget(schema, "paths"@) {
        None => Err("No paths in schema"@),
        Some(JsonV::Object(paths)) => Ok(find_in_paths(paths, id)),
        Some(_) => Err("Paths is not an object"@),
    }
}

fn find_in_methods_exec(methods: &Vec<(String, Json)>, id: &str) -> (r: Option<String>)
    ensures
        opt_view(r) == find_in_methods(entries_view(methods@), id@),
{
    let ghost mv = entries_view(methods@);
    let mut i: usize = 0;
    assert(mv.skip(0) =~= mv);
    while i < methods.len()
        invariant
            i <= methods.len(),
            mv == entries_view(methods@),
            find_in_methods(mv, id@) == find_in_methods(mv.skip(i as int), id@),
        decreases methods.len() - i,
    {
        assert(mv.skip(i as int).drop_first() =~= mv.skip(i + 1));
        assert(mv.skip(i as int)[0] == mv[i as int]);
        let found = match methods[i].1.get("operationId") {
            Some(Json::String(op)) => str_eq(op.as_str(), id),
            _ => false,
        };
        if found {
            return Some(methods[i].0.clone());
        }
        i = i + 1;
    }
    None
}

/// Find operation by ID in the schema.
pub fn find_operation_by_id(schema: &Json, operation_id: &str) -> (r: Result<
    (String, String),
    GenerateActionError,
>)
    ensures
        match find_by_id_spec(schema@, operation_id@) {
            Ok(Some((p, m))) => r matches Ok((rp, rm)) && rp@ == p && rm@ == m,
            Ok(None) => r matches Err(GenerateActionError::OperationNotFound(id)) && id@
                == operation_id@,
            Err(msg) => r matches Err(GenerateActionError::SchemaError(e)) && e@ == msg,
        },
{
    let paths = match schema.get("paths") {
        None => {
            return Err(GenerateActionError::SchemaError("No paths in schema".to_owned()));
        },
        Some(p) => p,
    };
    let entries = match paths {
        Json::Object(e) => {
            proof {
                crate::json::lemma_object_view(*e);
            }
            e
        },
        _ => {
            return Err(GenerateActionError::SchemaError("Paths is not an object".to_owned()));
        },
    };
    let ghost pv = entries_view(entries@);
    let mut i: usize = 0;
    assert(pv.skip(0) =~= pv);
    while i < entries.len()
        invariant
            i <= entries.len(),
            pv == entries_view(entries@),
            jget(schema@, "paths"@) == Some(JsonV::Object(pv)),
            find_in_paths(pv, operation_id@) == find_in_paths(pv.skip(i as int), operation_id@),
        decreases entries.len() - i,
    {
        assert(pv.skip(i as int).drop_first() =~= pv.skip(i + 1));
        assert(pv.skip(i as int)[0] == pv[i as int]);
        match &entries[i].1 {
            Json::Object(methods) => {
                proof {
                    crate::json::lemma_object_view(*methods);
                }
                assert(pv[i as int].1 == JsonV::Object(entries_view(methods@)));
                match find_in_methods_exec(methods, operation_id) {
                    Some(m) => {
                        let p = entries[i].0.clone();
                        assert(p@ == pv[i as int].0);
                        return Ok((p, m));
                    },
                    None => {},
                }
            },
            _ => {},
        }
        i = i + 1;
    }
    Err(GenerateActionError::OperationNotFound(operation_id.to_owned()))
}

// ---------------------------------------------------------------------------
// Input and output schemas
// ---------------------------------------------------------------------------

/// The message of the error reported when `$ref`/`allOf` references lead
/// back to where they started.
pub open spec fn ref_cycle() -> Seq<char> {
    "$ref or allOf references lead back to where they started"@
}

/// The entries every generated schema starts with.
pub open spec fn schema_header() -> Seq<(Seq<char>, JsonV)> {
    obj_from(
        seq![
            ("$schema"@, JsonV::Str("https://json-schema.org/draft/2020-12/schema"@)),
            ("type"@, JsonV::Str("object"@)),
            ("additionalProperties"@, JsonV::Bool(false)),
        ],
    )
}

/// The operation object at `paths[path][method]`, or the message of the
/// schema error for the first step that is missing.
pub open spec fn operation_object(schema: JsonV, path: Seq<char>, method: Seq<char>) -> Result<
    JsonV,
    Seq<char>,
> {
    match jget(schema, "paths"@) {
        None => Err("No paths in schema"@),
        Some(paths) => match jget(paths, path) {
            None => Err("No endpoint found for path: "@ + path),
            Some(endpoint) => match jget(endpoint, method) {
                None => Err("No "@ + method + " method found for path: "@ + path),
                Some(op) => Ok(op),
            },
        },
    }
}

/// `content["application/json"].schema` of a request body or response.
pub open spec fn json_schema_of(v: JsonV) -> Option<JsonV> {
    match jget(v, "content"@) {
        Some(c) => match jget(c, "application/json"@) {
            Some(j) => jget(j, "schema"@),
            None => None,
        },
        None => None,
    }
}

/// A parameter that becomes an input property: one `in` the path or the
/// query, with a string `name`.
pub open spec fn is_input_param(pr: JsonV) -> bool {
    &&& (get_str(pr, "in"@) == Some("path"@) || get_str(pr, "in"@) == Some("query"@))
    &&& get_str(pr, "name"@) is Some
}

/// The schema of an input parameter: its own schema resolved, with `enum`
/// as `anyOf` (empty where it does not resolve to an object), or
/// `{"type": "string"}` when it has none.
pub open spec fn param_schema(schema: JsonV, pr: JsonV) -> Option<Seq<(Seq<char>, JsonV)>> {
    match jget(pr, "schema"@) {
        Some(sr) => match resolved(schema, sr) {
            None => None,
            Some(JsonV::Object(so)) => Some(enum_to_anyof(insert_all(Seq::empty(), so))),
            Some(_) => Some(Seq::empty()),
        },
        None => Some(obj_from(seq![("type"@, JsonV::Str("string"@))])),
    }
}

/// The parameters, in order, added to the input properties and required names.
pub open spec fn add_params(
    schema: JsonV,
    props: Seq<(Seq<char>, JsonV)>,
    req: Seq<Seq<char>>,
    params: Seq<JsonV>,
) -> Option<(Seq<(Seq<char>, JsonV)>, Seq<Seq<char>>)>
    decreases params.len(),
{
    if params.len() == 0 {
        Some((props, req))
    } else {
        match resolved(schema, params[0]) {
            None => None,
            Some(pr) => if is_input_param(pr) {
                let name = get_str(pr, "name"@).unwrap();
                match param_schema(schema, pr) {
                    None => None,
                    Some(ps) => add_params(
                        schema,
                        obj_insert(props, name, JsonV::Object(ps)),
                        if get_bool(pr, "required"@) == Some(true) {
                            req.push(name)
                        } else {
                            req
                        },
                        params.drop_first(),
                    ),
                }
            } else {
                add_params(schema, props, req, params.drop_first())
            },
        }
    }
}

/// An object value with its `enum` given as `anyOf`; other values as they are.
pub open spec fn anyof_value(v: JsonV) -> JsonV {
    match v {
        JsonV::Object(o) => JsonV::Object(enum_to_anyof(o)),
        _ => v,
    }
}

/// Body properties, each resolved all the way down, stored in order.
pub open spec fn add_body_props(
    schema: JsonV,
    props: Seq<(Seq<char>, JsonV)>,
    add: Seq<(Seq<char>, JsonV)>,
) -> Option<Seq<(Seq<char>, JsonV)>>
    decreases add.len(),
{
    if add.len() == 0 {
        Some(props)
    } else {
        match resolved_deep(schema, add[0].1) {
            None => None,
            Some(v) => add_body_props(schema, obj_insert(props, add[0].0, anyof_value(v)), add.drop_first()),
        }
    }
}

/// The strings of `add` appended to the required names, in order.
pub open spec fn add_required_names(req: Seq<Seq<char>>, add: Seq<JsonV>) -> Seq<Seq<char>>
    decreases add.len(),
{
    if add.len() == 0 {
        req
    } else {
        match add[0] {
            JsonV::Str(s) => add_required_names(req.push(s), add.drop_first()),
            _ => add_required_names(req, add.drop_first()),
        }
    }
}

/// The properties and required names of one body schema object added.
pub open spec fn add_schema_part(
    schema: JsonV,
    props: Seq<(Seq<char>, JsonV)>,
    req: Seq<Seq<char>>,
    part: Seq<(Seq<char>, JsonV)>,
) -> Option<(Seq<(Seq<char>, JsonV)>, Seq<Seq<char>>)> {
    let p = match obj_get(part, "properties"@) {
        Some(JsonV::Object(pp)) => add_body_props(schema, props, pp),
        _ => Some(props),
    };
    match p {
        None => None,
        Some(p) => Some(
            (
                p,
                match obj_get(part, "required"@) {
                    Some(JsonV::Array(rq)) => add_required_names(req, rq),
                    _ => req,
                },
            ),
        ),
    }
}

/// The `allOf` parts of a body schema, each resolved and added in order.
pub open spec fn add_parts(
    schema: JsonV,
    props: Seq<(Seq<char>, JsonV)>,
    req: Seq<Seq<char>>,
    parts: Seq<JsonV>,
) -> Option<(Seq<(Seq<char>, JsonV)>, Seq<Seq<char>>)>
    decreases parts.len(),
{
    if parts.len() == 0 {
        Some((props, req))
    } else {
        match resolved(schema, parts[0]) {
            None => None,
            Some(JsonV::Object(po)) => match add_schema_part(schema, props, req, po) {
                None => None,
                Some(st) => add_parts(schema, st.0, st.1, parts.drop_first()),
            },
            Some(_) => add_parts(schema, props, req, parts.drop_first()),
        }
    }
}

/// The JSON request body of an operation added to the input properties.
pub open spec fn add_request_body(
    schema: JsonV,
    props: Seq<(Seq<char>, JsonV)>,
    req: Seq<Seq<char>>,
    op: JsonV,
) -> Option<(Seq<(Seq<char>, JsonV)>, Seq<Seq<char>>)> {
    match jget(op, "requestBody"@) {
        None => Some((props, req)),
        Some(rb) => match resolved(schema, rb) {
            None => None,
            Some(rbr) => match json_schema_of(rbr) {
                None => Some((props, req)),
                Some(sv) => match resolved(schema, sv) {
                    None => None,
                    Some(JsonV::Object(bo)) => match obj_get(bo, "allOf"@) {
                        Some(JsonV::Array(parts)) => add_parts(schema, props, req, parts),
                        _ => add_schema_part(schema, props, req, bo),
                    },
                    Some(_) => Some((props, req)),
                },
            },
        },
    }
}

/// Names as JSON strings.
pub open spec fn name_values(req: Seq<Seq<char>>) -> Seq<JsonV> {
    Seq::new(req.len(), |i: int| JsonV::Str(req[i]))
}

/// The input schema of the operation at `path` and `method`, or the message
/// of the schema error.
pub open spec fn input_schema_of(schema: JsonV, path: Seq<char>, method: Seq<char>) -> Result<
    JsonV,
    Seq<char>,
> {
    match operation_object(schema, path, method) {
        Err(e) => Err(e),
        Ok(op) => {
            let params = match get_arr(op, "parameters"@) {
                Some(a) => a,
                None => Seq::empty(),
            };
            match add_params(schema, Seq::empty(), Seq::empty(), params) {
                None => Err(ref_cycle()),
                Some(st) => match add_request_body(schema, st.0, st.1, op) {
                    None => Err(ref_cycle()),
                    Some(st2) => Ok(
                        JsonV::Object(
                            obj_insert(
                                obj_insert(schema_header(), "properties"@, JsonV::Object(st2.0)),
                                "required"@,
                                JsonV::Array(name_values(st2.1)),
                            ),
                        ),
                    ),
                },
            }
        },
    }
}

/// The first success response of an operation: `200`, else `201`, else `202`.
pub open spec fn success_response(op: JsonV) -> Option<JsonV> {
    match jget(op, "responses"@) {
        None => None,
        Some(rs) => match jget(rs, "200"@) {
            Some(x) => Some(x),
            None => match jget(rs, "201"@) {
                Some(x) => Some(x),
                None => jget(rs, "202"@),
            },
        },
    }
}

/// The resolved JSON schema of the success response (`{}` where there is
/// none); `None` when resolution needs more than the budget.
pub open spec fn response_schema_of(schema: JsonV, op: JsonV) -> Option<JsonV> {
    match success_response(op) {
        None => Some(JsonV::Object(Seq::empty())),
        Some(resp) => match resolved(schema, resp) {
            None => None,
            Some(rr) => match json_schema_of(rr) {
                None => Some(JsonV::Object(Seq::empty())),
                Some(sv) => resolved(schema, sv),
            },
        },
    }
}

/// The output schema of the operation at `path` and `method`, or the
/// message of the schema error.
pub open spec fn output_schema_of(schema: JsonV, path: Seq<char>, method: Seq<char>) -> Result<
    JsonV,
    Seq<char>,
> {
    match operation_object(schema, path, method) {
        Err(e) => Err(e),
        Ok(op) => match response_schema_of(schema, op) {
            None => Err(ref_cycle()),
            Some(rs) => match properties_of(schema, rs) {
                None => Err(ref_cycle()),
                Some(p) => Ok(JsonV::Object(obj_insert(schema_header(), "properties"@, JsonV::Object(p)))),
            },
        },
    }
}

pub(crate) fn schema_header_exec() -> (r: Vec<(String, Json)>)
    ensures
        entries_view(r@) == schema_header(),
{
    let mut h: Vec<(String, Json)> = Vec::new();
    assert(entries_view(h@) =~= Seq::<(Seq<char>, JsonV)>::empty());
    obj_set(&mut h, "$schema", Json::from_str("https://json-schema.org/draft/2020-12/schema"));
    obj_set(&mut h, "type", Json::from_str("object"));
    obj_set(&mut h, "additionalProperties", Json::Bool(false));
    proof {
        let e0 = Seq::<(Seq<char>, JsonV)>::empty();
        let a = ("$schema"@, JsonV::Str("https://json-schema.org/draft/2020-12/schema"@));
        let b = ("type"@, JsonV::Str("object"@));
        let c = ("additionalProperties"@, JsonV::Bool(false));
        let q = seq![a, b, c];
        assert(q.drop_last() =~= seq![a, b]);
        assert(q.drop_last().drop_last() =~= seq![a]);
        assert(q.drop_last().drop_last().drop_last() =~= e0);
        assert(seq![a].drop_last() =~= e0);
        assert(obj_from(e0) == e0);
        assert(obj_from(seq![a]) == obj_insert(e0, a.0, a.1));
        assert(seq![a, b].drop_last() =~= seq![a]);
        assert(obj_from(seq![a, b]) == obj_insert(obj_insert(e0, a.0, a.1), b.0, b.1));
    }
    h
}

pub(crate) fn operation_object_exec<'a>(schema: &'a Json, path: &str, method: &str) -> (r: Result<
    &'a Json,
    GenerateActionError,
>)
    ensures
        match operation_object(schema@, path@, method@) {
            Ok(op) => r matches Ok(j) && j@ == op,
            Err(m) => r matches Err(GenerateActionError::SchemaError(e)) && e@ == m,
        },
{
    let paths = match schema.get("paths") {
        None => {
            return Err(GenerateActionError::SchemaError("No paths in schema".to_owned()));
        },
        Some(p) => p,
    };
    let endpoint = match paths.get(path) {
        None => {
            return Err(
                GenerateActionError::SchemaError(concat_strs("No endpoint found for path: ", path)),
            );
        },
        Some(e) => e,
    };
    match endpoint.get(method) {
        None => {
            let a = concat_strs("No ", method);
            let b = concat_strs(a.as_str(), " method found for path: ");
            Err(GenerateActionError::SchemaError(concat_strs(b.as_str(), path)))
        },
        Some(op) => Ok(op),
    }
}

pub(crate) fn json_schema_of_exec(v: &Json) -> (r: Option<&Json>)
    ensures
        match json_schema_of(v@) {
            Some(s) => r matches Some(j) && j@ == s,
            None => r is None,
        },
{
    match v.get("content") {
        Some(c) => match c.get("application/json") {
            Some(j) => j.get("schema"),
            None => None,
        },
        None => None,
    }
}

fn param_schema_exec(schema: &Json, pr: &Json) -> (r: Option<Vec<(String, Json)>>)
    ensures
        match param_schema(schema@, pr@) {
            Some(ps) => r matches Some(e) && entries_view(e@) == ps,
            None => r is None,
        },
{
    let mut ps: Vec<(String, Json)> = Vec::new();
    assert(entries_view(ps@) =~= Seq::<(Seq<char>, JsonV)>::empty());
    match pr.get("schema") {
        Some(sr) => match resolve_schema(schema, sr) {
            None => None,
            Some(Json::Object(so)) => {
                proof {
                    crate::json::lemma_object_view(so);
                }
                insert_all_exec(&mut ps, &so);
                convert_enum_to_anyof(&mut ps);
                Some(ps)
            },
            Some(_) => Some(ps),
        },
        None => {
            obj_set(&mut ps, "type", Json::from_str("string"));
            proof {
                let a = ("type"@, JsonV::Str("string"@));
                let e0 = Seq::<(Seq<char>, JsonV)>::empty();
                assert(seq![a].drop_last() =~= e0);
                assert(obj_from(e0) == e0);
                assert(obj_from(seq![a]) == obj_insert(e0, a.0, a.1));
            }
            Some(ps)
        },
    }
}

fn add_params_exec(
    schema: &Json,
    props: &mut Vec<(String, Json)>,
    req: &mut Vec<String>,
    params: &Vec<Json>,
) -> (ok: bool)
    ensures
        match add_params(
            schema@,
            entries_view(old(props)@),
            strings_view(old(req)@),
            values_view(params@),
        ) {
            Some(st) => ok && entries_view(final(props)@) == st.0 && strings_view(final(req)@)
                == st.1,
            None => !ok,
        },
{
    let ghost pv = values_view(params@);
    let mut i: usize = 0;
    assert(pv.skip(0) =~= pv);
    while i < params.len()
        invariant
            i <= params.len(),
            pv == values_view(params@),
            add_params(schema@, entries_view(old(props)@), strings_view(old(req)@), pv) == add_params(
                schema@,
                entries_view(props@),
                strings_view(req@),
                pv.skip(i as int),
            ),
        decreases params.len() - i,
    {
        assert(pv.skip(i as int).drop_first() =~= pv.skip(i + 1));
        assert(pv.skip(i as int)[0] == params@[i as int]@);
        let pr = match resolve_schema(schema, &params[i]) {
            None => {
                return false;
            },
            Some(v) => v,
        };
        let is_param = match pr.get("in") {
            Some(Json::String(place)) => str_eq(place.as_str(), "path") || str_eq(
                place.as_str(),
                "query",
            ),
            _ => false,
        };
        let name: Option<String> = match pr.get("name") {
            Some(Json::String(n)) => Some(n.clone()),
            _ => None,
        };
        match name {
            Some(name) => {
                if is_param {
                    let ps = match param_schema_exec(schema, &pr) {
                        None => {
                            return false;
                        },
                        Some(ps) => ps,
                    };
                    let required = match pr.get("required") {
                        Some(Json::Bool(b)) => *b,
                        _ => false,
                    };
                    obj_insert_exec(props, name.clone(), Json::object(ps));
                    if required {
                        let ghost before = strings_view(req@);
                        req.push(name);
                        assert(strings_view(req@) =~= before.push(name@));
                    }
                }
            },
            None => {},
        }
        i = i + 1;
    }
    assert(pv.skip(params.len() as int) =~= Seq::<JsonV>::empty());
    true
}

fn add_body_props_exec(
    schema: &Json,
    props: &mut Vec<(String, Json)>,
    add: &Vec<(String, Json)>,
) -> (ok: bool)
    ensures
        match add_body_props(schema@, entries_view(old(props)@), entries_view(add@)) {
            Some(p) => ok && entries_view(final(props)@) == p,
            None => !ok,
        },
{
    let ghost av = entries_view(add@);
    let mut i: usize = 0;
    assert(av.skip(0) =~= av);
    while i < add.len()
        invariant
            i <= add.len(),
            av == entries_view(add@),
            add_body_props(schema@, entries_view(old(props)@), av) == add_body_props(
                schema@,
                entries_view(props@),
                av.skip(i as int),
            ),
        decreases add.len() - i,
    {
        assert(av.skip(i as int).drop_first() =~= av.skip(i + 1));
        assert(av.skip(i as int)[0] == av[i as int]);
        let v = match resolve_refs_recursive(schema, &add[i].1) {
            None => {
                return false;
            },
            Some(v) => v,
        };
        let v = match v {
            Json::Object(o) => {
                proof {
                    crate::json::lemma_object_view(o);
                }
                let mut o = o;
                convert_enum_to_anyof(&mut o);
                Json::object(o)
            },
            other => other,
        };
        obj_insert_exec(props, add[i].0.clone(), v);
        i = i + 1;
    }
    assert(av.skip(add.len() as int) =~= Seq::<(Seq<char>, JsonV)>::empty());
    true
}

fn add_required_names_exec(req: &mut Vec<String>, add: &Vec<Json>)
    ensures
        strings_view(final(req)@) == add_required_names(strings_view(old(req)@), values_view(add@)),
{
    let ghost av = values_view(add@);
    let mut i: usize = 0;
    assert(av.skip(0) =~= av);
    while i < add.len()
        invariant
            i <= add.len(),
            av == values_view(add@),
            add_required_names(strings_view(old(req)@), av) == add_required_names(
                strings_view(req@),
                av.skip(i as int),
            ),
        decreases add.len() - i,
    {
        assert(av.skip(i as int).drop_first() =~= av.skip(i + 1));
        assert(av.skip(i as int)[0] == av[i as int]);
        match &add[i] {
            Json::String(s) => {
                let ghost before = strings_view(req@);
                req.push(s.clone());
                assert(strings_view(req@) =~= before.push(s@));
            },
            _ => {},
        }
        i = i + 1;
    }
    assert(av.skip(add.len() as int) =~= Seq::<JsonV>::empty());
}

fn add_schema_part_exec(
    schema: &Json,
    props: &mut Vec<(String, Json)>,
    req: &mut Vec<String>,
    part: &Vec<(String, Json)>,
) -> (ok: bool)
    ensures
        match add_schema_part(
            schema@,
            entries_view(old(props)@),
            strings_view(old(req)@),
            entries_view(part@),
        ) {
            Some(st) => ok && entries_view(final(props)@) == st.0 && strings_view(final(req)@)
                == st.1,
            None => !ok,
        },
{
    match obj_lookup(part, "properties") {
        Some(Json::Object(pp)) => {
            proof {
                crate::json::lemma_object_view(*pp);
            }
            if !add_body_props_exec(schema, props, pp) {
                return false;
            }
        },
        _ => {},
    }
    match obj_lookup(part, "required") {
        Some(Json::Array(rq)) => {
            proof {
                crate::json::lemma_array_view(*rq);
            }
            add_required_names_exec(req, rq);
        },
        _ => {},
    }
    true
}

fn add_parts_exec(
    schema: &Json,
    props: &mut Vec<(String, Json)>,
    req: &mut Vec<String>,
    parts: &Vec<Json>,
) -> (ok: bool)
    ensures
        match add_parts(
            schema@,
            entries_view(old(props)@),
            strings_view(old(req)@),
            values_view(parts@),
        ) {
            Some(st) => ok && entries_view(final(props)@) == st.0 && strings_view(final(req)@)
                == st.1,
            None => !ok,
        },
{
    let ghost pv = values_view(parts@);
    let mut i: usize = 0;
    assert(pv.skip(0) =~= pv);
    while i < parts.len()
        invariant
            i <= parts.len(),
            pv == values_view(parts@),
            add_parts(schema@, entries_view(old(props)@), strings_view(old(req)@), pv) == add_parts(
                schema@,
                entries_view(props@),
                strings_view(req@),
                pv.skip(i as int),
            ),
        decreases parts.len() - i,
    {
        assert(pv.skip(i as int).drop_first() =~= pv.skip(i + 1));
        assert(pv.skip(i as int)[0] == pv[i as int]);
        match resolve_schema(schema, &parts[i]) {
            None => {
                return false;
            },
            Some(Json::Object(po)) => {
                proof {
                    crate::json::lemma_object_view(po);
                }
                if !add_schema_part_exec(schema, props, req, &po) {
                    return false;
                }
            },
            Some(_) => {},
        }
        i = i + 1;
    }
    assert(pv.skip(parts.len() as int) =~= Seq::<JsonV>::empty());
    true
}

fn add_request_body_exec(
    schema: &Json,
    props: &mut Vec<(String, Json)>,
    req: &mut Vec<String>,
    op: &Json,
) -> (ok: bool)
    ensures
        match add_request_body(schema@, entries_view(old(props)@), strings_view(old(req)@), op@) {
            Some(st) => ok && entries_view(final(props)@) == st.0 && strings_view(final(req)@)
                == st.1,
            None => !ok,
        },
{
    let rb = match op.get("requestBody") {
        None => {
            return true;
        },
        Some(rb) => rb,
    };
    let rbr = match resolve_schema(schema, rb) {
        None => {
            return false;
        },
        Some(v) => v,
    };
    let sv = match json_schema_of_exec(&rbr) {
        None => {
            return true;
        },
        Some(sv) => sv,
    };
    match resolve_schema(schema, sv) {
        None => false,
        Some(Json::Object(bo)) => {
            proof {
                crate::json::lemma_object_view(bo);
            }
            match obj_lookup(&bo, "allOf") {
                Some(Json::Array(parts)) => {
                    proof {
                        crate::json::lemma_array_view(*parts);
                    }
                    add_parts_exec(schema, props, req, parts)
                },
                _ => add_schema_part_exec(schema, props, req, &bo),
            }
        },
        Some(_) => true,
    }
}

fn ref_cycle_error() -> (e: GenerateActionError)
    ensures
        e matches GenerateActionError::SchemaError(m) && m@ == ref_cycle(),
{
    GenerateActionError::SchemaError("$ref or allOf references lead back to where they started".to_owned())
}

/// Generate input schema for an action: its path and query parameters and
/// the properties of its JSON request body, with the names they require.
pub fn generate_input_schema(schema: &Json, path: &str, method: &str) -> (r: Result<
    Json,
    GenerateActionError,
>)
    ensures
        match input_schema_of(schema@, path@, method@) {
            Ok(v) => r matches Ok(j) && j@ == v,
            Err(m) => r matches Err(GenerateActionError::SchemaError(e)) && e@ == m,
        },
{
    let op = match operation_object_exec(schema, path, method) {
        Err(e) => {
            return Err(e);
        },
        Ok(op) => op,
    };
    let empty_params: Vec<Json> = Vec::new();
    let params: &Vec<Json> = match op.get("parameters") {
        Some(Json::Array(a)) => {
            proof {
                crate::json::lemma_array_view(*a);
            }
            a
        },
        _ => &empty_params,
    };
    assert(values_view(empty_params@) =~= Seq::<JsonV>::empty());
    let mut props: Vec<(String, Json)> = Vec::new();
    let mut req: Vec<String> = Vec::new();
    assert(entries_view(props@) =~= Seq::<(Seq<char>, JsonV)>::empty());
    assert(strings_view(req@) =~= Seq::<Seq<char>>::empty());
    if !add_params_exec(schema, &mut props, &mut req, params) {
        return Err(ref_cycle_error());
    }
    if !add_request_body_exec(schema, &mut props, &mut req, op) {
        return Err(ref_cycle_error());
    }
    let mut names: Vec<Json> = Vec::new();
    let mut i: usize = 0;
    while i < req.len()
        invariant
            i <= req.len(),
            names@.len() == i,
            forall|j: int| 0 <= j < i ==> names@[j]@ == JsonV::Str(req@[j]@),
        decreases req.len() - i,
    {
        names.push(Json::String(req[i].clone()));
        i = i + 1;
    }
    assert(values_view(names@) =~= name_values(strings_view(req@)));
    let mut doc = schema_header_exec();
    obj_set(&mut doc, "properties", Json::object(props));
    obj_set(&mut doc, "required", Json::array(names));
    Ok(Json::object(doc))
}

/// The resolved JSON schema of an operation's success response (`200`, else
/// `201`, else `202`), or `{}` where it has none (`None` where references
/// lead back to where they started).
pub fn get_response_schema(schema: &Json, op: &Json) -> (r: Option<Json>)
    ensures
        match response_schema_of(schema@, op@) {
            Some(v) => r matches Some(j) && j@ == v,
            None => r is None,
        },
{
    let resp = match op.get("responses") {
        None => None,
        Some(rs) => match rs.get("200") {
            Some(x) => Some(x),
            None => match rs.get("201") {
                Some(x) => Some(x),
                None => rs.get("202"),
            },
        },
    };
    match resp {
        None => Some(Json::empty_object()),
        Some(resp) => match resolve_schema(schema, resp) {
            None => None,
            Some(rr) => match json_schema_of_exec(&rr) {
                None => Some(Json::empty_object()),
                Some(sv) => resolve_schema(schema, sv),
            },
        },
    }
}

/// Generate output schema for an action: the properties of its success
/// response's JSON schema.
pub fn generate_output_schema(schema: &Json, path: &str, method: &str) -> (r: Result<
    Json,
    GenerateActionError,
>)
    ensures
        match output_schema_of(schema@, path@, method@) {
            Ok(v) => r matches Ok(j) && j@ == v,
            Err(m) => r matches Err(GenerateActionError::SchemaError(e)) && e@ == m,
        },
{
    let op = match operation_object_exec(schema, path, method) {
        Err(e) => {
            return Err(e);
        },
        Ok(op) => op,
    };
    let rs = match get_response_schema(schema, op) {
        None => {
            return Err(ref_cycle_error());
        },
        Some(rs) => rs,
    };
    let props = match extract_properties(schema, &rs) {
        None => {
            return Err(ref_cycle_error());
        },
        Some(p) => p,
    };
    let mut doc = schema_header_exec();
    obj_set(&mut doc, "properties", Json::object(props));
    Ok(Json::object(doc))
}

// ---------------------------------------------------------------------------
// Laws
// ---------------------------------------------------------------------------

/// A larger nesting budget never changes a resolution that succeeded: the
/// budget only cuts off values nested deeper than it (references that lead
/// back to where they started among them).
pub proof fn lemma_resolve_fuel_monotone(schema: JsonV, v: JsonV, f1: nat, f2: nat)
    requires
        f1 <= f2,
        resolve_fuel(schema, v, f1) is Some,
    ensures
        resolve_fuel(schema, v, f2) == resolve_fuel(schema, v, f1),
    decreases f1, 0nat,
{
    match v {
        JsonV::Object(obj) => {
            let via_ref = match obj_get(obj, "$ref"@) {
                Some(JsonV::Str(r)) => resolve_ref_spec(schema, r),
                _ => None,
            };
            match via_ref {
                Some(resolved) => {
                    lemma_resolve_fuel_monotone(schema, resolved, (f1 - 1) as nat, (f2 - 1) as nat);
                },
                None => match obj_get(obj, "allOf"@) {
                    Some(JsonV::Array(parts)) => {
                        lemma_merge_parts_monotone(schema, parts, (f1 - 1) as nat, (f2 - 1) as nat);
                    },
                    _ => {},
                },
            }
        },
        _ => {},
    }
}

/// A larger nesting budget never changes an `allOf` merge that succeeded.
pub proof fn lemma_merge_parts_monotone(schema: JsonV, parts: Seq<JsonV>, f1: nat, f2: nat)
    requires
        f1 <= f2,
        merge_parts(schema, parts, f1) is Some,
    ensures
        merge_parts(schema, parts, f2) == merge_parts(schema, parts, f1),
    decreases f1, parts.len() + 1,
{
    if parts.len() > 0 {
        lemma_merge_parts_monotone(schema, parts.drop_last(), f1, f2);
        lemma_resolve_fuel_monotone(schema, parts.last(), f1, f2);
    }
}

/// The keys of the path items and of each path item's operations are in
/// increasing order, each once, as in any parsed JSON document.
pub open spec fn paths_keys_sorted(schema: JsonV) -> bool {
    match jget(schema, "paths"@) {
        Some(JsonV::Object(paths)) => keys_sorted(paths) && forall|i: int|
            0 <= i < paths.len() ==> match #[trigger] paths[i].1 {
                JsonV::Object(ms) => keys_sorted(ms),
                _ => true,
            },
        _ => true,
    }
}

proof fn lemma_find_in_methods_index(ms: Seq<(Seq<char>, JsonV)>, id: Seq<char>) -> (k: int)
    requires
        find_in_methods(ms, id) is Some,
    ensures
        0 <= k < ms.len(),
        find_in_methods(ms, id) == Some(ms[k].0),
        get_str(ms[k].1, "operationId"@) == Some(id),
    decreases ms.len(),
{
    if get_str(ms[0].1, "operationId"@) == Some(id) {
        0
    } else {
        let k = lemma_find_in_methods_index(ms.drop_first(), id);
        assert(ms.drop_first()[k] == ms[k + 1]);
        k + 1
    }
}

proof fn lemma_find_in_paths_index(paths: Seq<(Seq<char>, JsonV)>, id: Seq<char>) -> (i: int)
    requires
        find_in_paths(paths, id) is Some,
    ensures
        0 <= i < paths.len(),
        paths[i].1 is Object,
        find_in_methods(paths[i].1->Object_0, id) is Some,
        find_in_paths(paths, id) == Some(
            (paths[i].0, find_in_methods(paths[i].1->Object_0, id).unwrap()),
        ),
    decreases paths.len(),
{
    match paths[0].1 {
        JsonV::Object(methods) => if find_in_methods(methods, id) is Some {
            0
        } else {
            let i = lemma_find_in_paths_index(paths.drop_first(), id);
            assert(paths.drop_first()[i] == paths[i + 1]);
            i + 1
        },
        _ => {
            let i = lemma_find_in_paths_index(paths.drop_first(), id);
            assert(paths.drop_first()[i] == paths[i + 1]);
            i + 1
        },
    }
}

/// What looking up an operation id finds is an operation carrying that id:
/// `paths[path][method]` has the `operationId` looked for.
pub proof fn lemma_found_operation_has_id(schema: JsonV, id: Seq<char>)
    requires
        find_by_id_spec(schema, id) matches Ok(Some(_)),
        paths_keys_sorted(schema),
    ensures
        find_by_id_spec(schema, id) matches Ok(Some((p, m))) && (operation_object(schema, p, m)
            matches Ok(op) && get_str(op, "operationId"@) == Some(id)),
{
    let paths = jget(schema, "paths"@).unwrap()->Object_0;
    let i = lemma_find_in_paths_index(paths, id);
    let ms = paths[i].1->Object_0;
    let k = lemma_find_in_methods_index(ms, id);
    crate::json::lemma_sorted_get_at(paths, i);
    assert(keys_sorted(ms));
    crate::json::lemma_sorted_get_at(ms, k);
}

proof fn lemma_find_in_methods_some(ms: Seq<(Seq<char>, JsonV)>, id: Seq<char>, k: int)
    requires
        0 <= k < ms.len(),
        get_str(ms[k].1, "operationId"@) == Some(id),
    ensures
        find_in_methods(ms, id) is Some,
    decreases k,
{
    if k > 0 && get_str(ms[0].1, "operationId"@) != Some(id) {
        assert(ms.drop_first()[k - 1] == ms[k]);
        lemma_find_in_methods_some(ms.drop_first(), id, k - 1);
    }
}

proof fn lemma_find_in_paths_some(paths: Seq<(Seq<char>, JsonV)>, id: Seq<char>, i: int)
    requires
        0 <= i < paths.len(),
        paths[i].1 is Object,
        find_in_methods(paths[i].1->Object_0, id) is Some,
    ensures
        find_in_paths(paths, id) is Some,
    decreases i,
{
    if i > 0 {
        match paths[0].1 {
            JsonV::Object(methods) => if find_in_methods(methods, id) is None {
                assert(paths.drop_first()[i - 1] == paths[i]);
                lemma_find_in_paths_some(paths.drop_first(), id, i - 1);
            },
            _ => {
                assert(paths.drop_first()[i - 1] == paths[i]);
                lemma_find_in_paths_some(paths.drop_first(), id, i - 1);
            },
        }
    }
}

/// Whenever some operation of the document carries the id `id`, looking the
/// id up finds an operation.
pub proof fn lemma_operation_with_id_is_found(
    schema: JsonV,
    id: Seq<char>,
    path: Seq<char>,
    method: Seq<char>,
)
    requires
        jget(schema, "paths"@) matches Some(JsonV::Object(_)),
        operation_object(schema, path, method) matches Ok(op) && get_str(op, "operationId"@)
            == Some(id),
    ensures
        find_by_id_spec(schema, id) matches Ok(Some(_)),
{
    let paths = jget(schema, "paths"@).unwrap()->Object_0;
    let i = crate::json::lemma_obj_get_index(paths, path);
    let item = paths[i].1;
    let ms = item->Object_0;
    let k = crate::json::lemma_obj_get_index(ms, method);
    lemma_find_in_methods_some(ms, id, k);
    lemma_find_in_paths_some(paths, id, i);
}

proof fn lemma_header_fields(props: JsonV, req: JsonV)
    ensures
        ({
            let h = obj_insert(schema_header(), "properties"@, props);
            &&& obj_get(h, "type"@) == Some(JsonV::Str("object"@))
            &&& obj_get(h, "additionalProperties"@) == Some(JsonV::Bool(false))
            &&& obj_get(h, "$schema"@) == Some(
                JsonV::Str("https://json-schema.org/draft/2020-12/schema"@),
            )
            &&& obj_get(obj_insert(h, "required"@, req), "type"@) == Some(JsonV::Str("object"@))
            &&& obj_get(obj_insert(h, "required"@, req), "additionalProperties"@) == Some(
                JsonV::Bool(false),
            )
            &&& obj_get(obj_insert(h, "required"@, req), "$schema"@) == Some(
                JsonV::Str("https://json-schema.org/draft/2020-12/schema"@),
            )
        }),
{
    reveal_strlit("type");
    reveal_strlit("additionalProperties");
    reveal_strlit("$schema");
    reveal_strlit("properties");
    reveal_strlit("required");
    let e0 = Seq::<(Seq<char>, JsonV)>::empty();
    let a = ("$schema"@, JsonV::Str("https://json-schema.org/draft/2020-12/schema"@));
    let b = ("type"@, JsonV::Str("object"@));
    let c = ("additionalProperties"@, JsonV::Bool(false));
    assert(seq![a, b, c].drop_last() =~= seq![a, b]);
    assert(seq![a, b].drop_last() =~= seq![a]);
    assert(seq![a].drop_last() =~= e0);
    let h1 = obj_insert(e0, a.0, a.1);
    let h2 = obj_insert(h1, b.0, b.1);
    let h3 = obj_insert(h2, c.0, c.1);
    assert(obj_from(e0) == e0);
    assert(obj_from(seq![a]) == h1);
    assert(obj_from(seq![a, b]) == h2);
    assert(schema_header() == h3);
    lemma_three_keys(e0, a, b, c);
    let h = obj_insert(h3, "properties"@, props);
    crate::json::lemma_obj_insert_get(h3, "properties"@, props, "type"@);
    crate::json::lemma_obj_insert_get(h3, "properties"@, props, "additionalProperties"@);
    crate::json::lemma_obj_insert_get(h3, "properties"@, props, "$schema"@);
    crate::json::lemma_obj_insert_get(h, "required"@, req, "type"@);
    crate::json::lemma_obj_insert_get(h, "required"@, req, "additionalProperties"@);
    crate::json::lemma_obj_insert_get(h, "required"@, req, "$schema"@);
}

proof fn lemma_three_keys(
    e0: Seq<(Seq<char>, JsonV)>,
    a: (Seq<char>, JsonV),
    b: (Seq<char>, JsonV),
    c: (Seq<char>, JsonV),
)
    requires
        a.0 != b.0,
        a.0 != c.0,
        b.0 != c.0,
    ensures
        ({
            let h3 = obj_insert(obj_insert(obj_insert(e0, a.0, a.1), b.0, b.1), c.0, c.1);
            &&& obj_get(h3, a.0) == Some(a.1)
            &&& obj_get(h3, b.0) == Some(b.1)
            &&& obj_get(h3, c.0) == Some(c.1)
        }),
{
    let h1 = obj_insert(e0, a.0, a.1);
    let h2 = obj_insert(h1, b.0, b.1);
    crate::json::lemma_obj_insert_get(e0, a.0, a.1, a.0);
    crate::json::lemma_obj_insert_get(h1, b.0, b.1, a.0);
    crate::json::lemma_obj_insert_get(h2, c.0, c.1, a.0);
    crate::json::lemma_obj_insert_get(h1, b.0, b.1, b.0);
    crate::json::lemma_obj_insert_get(h2, c.0, c.1, b.0);
    crate::json::lemma_obj_insert_get(h2, c.0, c.1, c.0);
}

/// Every input and output schema generated for an action is a closed JSON
/// Schema object: draft 2020-12, `type` `object`, `additionalProperties` false.
pub proof fn lemma_action_schemas_are_closed_objects(
    schema: JsonV,
    path: Seq<char>,
    method: Seq<char>,
)
    ensures
        input_schema_of(schema, path, method) matches Ok(v) ==> closed_object_schema(v),
        output_schema_of(schema, path, method) matches Ok(v) ==> closed_object_schema(v),
{
    match input_schema_of(schema, path, method) {
        Ok(v) => {
            let op = operation_object(schema, path, method)->Ok_0;
            let params = match get_arr(op, "parameters"@) {
                Some(a) => a,
                None => Seq::empty(),
            };
            let st = add_params(schema, Seq::empty(), Seq::empty(), params).unwrap();
            let st2 = add_request_body(schema, st.0, st.1, op).unwrap();
            lemma_header_fields(JsonV::Object(st2.0), JsonV::Array(name_values(st2.1)));
        },
        Err(_) => {},
    }
    match output_schema_of(schema, path, method) {
        Ok(v) => {
            let op = operation_object(schema, path, method)->Ok_0;
            let rs = response_schema_of(schema, op).unwrap();
            let p = properties_of(schema, rs).unwrap();
            lemma_header_fields(JsonV::Object(p), JsonV::Null);
        },
        Err(_) => {},
    }
}

/// A closed JSON Schema object: draft 2020-12, `type` `object`, no
/// additional properties.
pub open spec fn closed_object_schema(v: JsonV) -> bool {
    &&& jget(v, "type"@) == Some(JsonV::Str("object"@))
    &&& jget(v, "additionalProperties"@) == Some(JsonV::Bool(false))
    &&& jget(v, "$schema"@) == Some(JsonV::Str("https://json-schema.org/draft/2020-12/schema"@))
}

} // verus!
