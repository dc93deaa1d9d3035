//! Why the budget for resolving every level below a value is enough: a value
//! that resolves all the way down within some budget does so within
//! `deep_budget`, to the same schema.
//!
//! Going down, the values met are nested in the document or in the value,
//! or they are the `properties` and `required` of an object merged from the
//! parts of one such `allOf` array, the `anyOf` made from one such `enum`, or
//! one `{"const": ..}` of it: at most five for each nested value. A path
//! that meets one of them twice never resolves, so a path that resolves is
//! no longer than that.
use vstd::prelude::*;

use super::resolution_bound::{
    lemma_element_nested, lemma_member_nested, lemma_nested_size, lemma_nested_trans,
    lemma_ref_target_nested, nested, nested_entries,
};
use super::schema_generator::{
    add_missing_strs, deep_budget, deep_child, deep_path, enum_const_items, enum_to_anyof,
    insert_all, insert_others, lemma_cycle_unresolved, lemma_merge_parts_monotone, merge_part,
    merge_parts, ref_budget, resolve_deep, resolve_deep_entries, resolve_deep_values, resolve_fuel,
    resolve_ref_spec, resolved, resolved_deep,
};
use crate::json::{
    jsize, keys_sorted, lemma_obj_get_index, lemma_obj_insert_sorted, lemma_sorted_get_at, obj_get,
    obj_insert, obj_remove, JsonV,
};

verus! {

broadcast use vstd::set::group_set_axioms;

/// Every value of the entries `e` lies in `n`.
pub open spec fn values_in(e: Seq<(Seq<char>, JsonV)>, n: Set<JsonV>) -> bool {
    forall|i: int| 0 <= i < e.len() ==> n.contains(#[trigger] e[i].1)
}

/// Every element of `a` lies in `n`.
pub open spec fn elems_in(a: Seq<JsonV>, n: Set<JsonV>) -> bool {
    forall|i: int| 0 <= i < a.len() ==> n.contains(#[trigger] a[i])
}

/// `n` holds every value nested in one of its values.
pub open spec fn nesting_closed(n: Set<JsonV>) -> bool {
    forall|y: JsonV, z: JsonV| n.contains(y) && #[trigger] nested(y).contains(z) ==> n.contains(z)
}

/// An entry of an object merged from `allOf` parts whose values lie in `n`.
pub open spec fn merged_entry(kv: (Seq<char>, JsonV), n: Set<JsonV>) -> bool {
    if kv.0 == "properties"@ {
        kv.1 matches JsonV::Object(p) && values_in(p, n)
    } else if kv.0 == "required"@ {
        kv.1 matches JsonV::Array(r) && elems_in(r, n)
    } else {
        n.contains(kv.1)
    }
}

/// The entries of an object merged from `allOf` parts whose values lie in `n`.
pub open spec fn merged_entries(m: Seq<(Seq<char>, JsonV)>, n: Set<JsonV>) -> bool {
    &&& keys_sorted(m)
    &&& forall|i: int| 0 <= i < m.len() ==> merged_entry(#[trigger] m[i], n)
}

/// An entry that a part gives to a merge, its values lying in `n`.
pub open spec fn part_entry(kv: (Seq<char>, JsonV), n: Set<JsonV>) -> bool {
    if kv.0 == "properties"@ {
        kv.1 matches JsonV::Object(p) ==> values_in(p, n)
    } else if kv.0 == "required"@ {
        kv.1 matches JsonV::Array(r) ==> elems_in(r, n)
    } else {
        n.contains(kv.1)
    }
}

pub open spec fn part_entries(po: Seq<(Seq<char>, JsonV)>, n: Set<JsonV>) -> bool {
    forall|i: int| 0 <= i < po.len() ==> part_entry(#[trigger] po[i], n)
}

proof fn lemma_entry_nested(e: Seq<(Seq<char>, JsonV)>, i: int)
    requires
        0 <= i < e.len(),
    ensures
        nested_entries(e).contains(e[i].1),
    decreases i,
{
    if i == 0 {
        assert(nested(e[0].1).contains(e[0].1));
    } else {
        lemma_entry_nested(e.drop_first(), i - 1);
        assert(e.drop_first()[i - 1] == e[i]);
    }
}

/// The values of an object of `n` lie in `n`.
proof fn lemma_object_values_in(n: Set<JsonV>, e: Seq<(Seq<char>, JsonV)>)
    requires
        nesting_closed(n),
        n.contains(JsonV::Object(e)),
    ensures
        values_in(e, n),
{
    assert forall|i: int| 0 <= i < e.len() implies n.contains(#[trigger] e[i].1) by {
        lemma_entry_nested(e, i);
        assert(nested(JsonV::Object(e)).contains(e[i].1));
    }
}

/// The elements of an array of `n` lie in `n`.
proof fn lemma_array_elems_in(n: Set<JsonV>, a: Seq<JsonV>)
    requires
        nesting_closed(n),
        n.contains(JsonV::Array(a)),
    ensures
        elems_in(a, n),
{
    assert forall|i: int| 0 <= i < a.len() implies n.contains(#[trigger] a[i]) by {
        lemma_element_nested(a, i);
        assert(nested(JsonV::Array(a)).contains(a[i]));
    }
}

/// An entry whose value lies in a closed `n` gives what a part gives.
proof fn lemma_part_entries_of(n: Set<JsonV>, e: Seq<(Seq<char>, JsonV)>)
    requires
        nesting_closed(n),
        values_in(e, n),
    ensures
        part_entries(e, n),
{
    assert forall|i: int| 0 <= i < e.len() implies part_entry(#[trigger] e[i], n) by {
        assert(n.contains(e[i].1));
        if let JsonV::Object(p) = e[i].1 {
            lemma_object_values_in(n, p);
        }
        if let JsonV::Array(r) = e[i].1 {
            lemma_array_elems_in(n, r);
        }
    }
}

proof fn lemma_merged_part_entries(m: Seq<(Seq<char>, JsonV)>, n: Set<JsonV>)
    requires
        merged_entries(m, n),
    ensures
        part_entries(m, n),
{
    assert forall|i: int| 0 <= i < m.len() implies part_entry(#[trigger] m[i], n) by {
        assert(merged_entry(m[i], n));
    }
}

/// Storing an entry keeps a property that every entry and the new one have.
proof fn lemma_insert_keeps(
    e: Seq<(Seq<char>, JsonV)>,
    k: Seq<char>,
    v: JsonV,
    pr: spec_fn((Seq<char>, JsonV)) -> bool,
)
    requires
        forall|i: int| 0 <= i < e.len() ==> #[trigger] pr(e[i]),
        pr((k, v)),
    ensures
        forall|i: int| 0 <= i < obj_insert(e, k, v).len() ==> #[trigger] pr(obj_insert(e, k, v)[i]),
    decreases e.len(),
{
    let r = obj_insert(e, k, v);
    if e.len() == 0 {
    } else if e[0].0 == k {
        assert forall|i: int| 0 <= i < r.len() implies #[trigger] pr(r[i]) by {
            if i > 0 {
                assert(r[i] == e[i]);
            }
        }
    } else if crate::json::key_lt(k, e[0].0) {
        assert forall|i: int| 0 <= i < r.len() implies #[trigger] pr(r[i]) by {
            if i > 0 {
                assert(r[i] == e[i - 1]);
            }
        }
    } else {
        let t = e.drop_first();
        assert forall|i: int| 0 <= i < t.len() implies #[trigger] pr(t[i]) by {
            assert(t[i] == e[i + 1]);
        }
        lemma_insert_keeps(t, k, v, pr);
        assert forall|i: int| 0 <= i < r.len() implies #[trigger] pr(r[i]) by {
            if i > 0 {
                assert(r[i] == obj_insert(t, k, v)[i - 1]);
            } else {
                assert(r[0] == e[0]);
            }
        }
    }
}

proof fn lemma_remove_keeps(
    e: Seq<(Seq<char>, JsonV)>,
    k: Seq<char>,
    pr: spec_fn((Seq<char>, JsonV)) -> bool,
)
    requires
        forall|i: int| 0 <= i < e.len() ==> #[trigger] pr(e[i]),
    ensures
        forall|i: int| 0 <= i < obj_remove(e, k).len() ==> #[trigger] pr(obj_remove(e, k)[i]),
    decreases e.len(),
{
    let r = obj_remove(e, k);
    if e.len() == 0 {
    } else if e[0].0 == k {
        assert forall|i: int| 0 <= i < r.len() implies #[trigger] pr(r[i]) by {
            assert(r[i] == e[i + 1]);
        }
    } else {
        let t = e.drop_first();
        assert forall|i: int| 0 <= i < t.len() implies #[trigger] pr(t[i]) by {
            assert(t[i] == e[i + 1]);
        }
        lemma_remove_keeps(t, k, pr);
        assert forall|i: int| 0 <= i < r.len() implies #[trigger] pr(r[i]) by {
            if i > 0 {
                assert(r[i] == obj_remove(t, k)[i - 1]);
            } else {
                assert(r[0] == e[0]);
            }
        }
    }
}

proof fn lemma_insert_all_keeps(
    e: Seq<(Seq<char>, JsonV)>,
    add: Seq<(Seq<char>, JsonV)>,
    pr: spec_fn((Seq<char>, JsonV)) -> bool,
)
    requires
        forall|i: int| 0 <= i < e.len() ==> #[trigger] pr(e[i]),
        forall|i: int| 0 <= i < add.len() ==> #[trigger] pr(add[i]),
    ensures
        forall|i: int| 0 <= i < insert_all(e, add).len() ==> #[trigger] pr(insert_all(e, add)[i]),
    decreases add.len(),
{
    if add.len() > 0 {
        let d = add.drop_last();
        assert forall|i: int| 0 <= i < d.len() implies #[trigger] pr(d[i]) by {
            assert(d[i] == add[i]);
        }
        lemma_insert_all_keeps(e, d, pr);
        assert(pr(add[add.len() - 1]));
        lemma_insert_keeps(insert_all(e, d), add.last().0, add.last().1, pr);
    }
}

proof fn lemma_insert_all_sorted(e: Seq<(Seq<char>, JsonV)>, add: Seq<(Seq<char>, JsonV)>)
    requires
        keys_sorted(e),
    ensures
        keys_sorted(insert_all(e, add)),
    decreases add.len(),
{
    if add.len() > 0 {
        lemma_insert_all_sorted(e, add.drop_last());
        lemma_obj_insert_sorted(insert_all(e, add.drop_last()), add.last().0, add.last().1);
    }
}

proof fn lemma_insert_others_keeps(
    e: Seq<(Seq<char>, JsonV)>,
    part: Seq<(Seq<char>, JsonV)>,
    pr: spec_fn((Seq<char>, JsonV)) -> bool,
)
    requires
        keys_sorted(e),
        forall|i: int| 0 <= i < e.len() ==> #[trigger] pr(e[i]),
        forall|i: int|
            0 <= i < part.len() && part[i].0 != "properties"@ && part[i].0 != "required"@
                ==> #[trigger] pr(part[i]),
    ensures
        keys_sorted(insert_others(e, part)),
        forall|i: int|
            0 <= i < insert_others(e, part).len() ==> #[trigger] pr(insert_others(e, part)[i]),
    decreases part.len(),
{
    if part.len() > 0 {
        let d = part.drop_last();
        assert forall|i: int|
            0 <= i < d.len() && d[i].0 != "properties"@ && d[i].0 != "required"@ implies #[trigger] pr(
            d[i],
        ) by {
            assert(d[i] == part[i]);
        }
        lemma_insert_others_keeps(e, d, pr);
        let (k, v) = part.last();
        if k != "properties"@ && k != "required"@ {
            assert(pr(part[part.len() - 1]));
            lemma_insert_keeps(insert_others(e, d), k, v, pr);
            lemma_obj_insert_sorted(insert_others(e, d), k, v);
        }
    }
}

proof fn lemma_add_missing_in(list: Seq<JsonV>, req: Seq<JsonV>, n: Set<JsonV>)
    requires
        elems_in(list, n),
        elems_in(req, n),
    ensures
        elems_in(add_missing_strs(list, req), n),
    decreases req.len(),
{
    if req.len() > 0 {
        let d = req.drop_last();
        assert forall|i: int| 0 <= i < d.len() implies n.contains(#[trigger] d[i]) by {
            assert(d[i] == req[i]);
        }
        lemma_add_missing_in(list, d, n);
        let prev = add_missing_strs(list, d);
        assert(n.contains(req[req.len() - 1]));
        if let JsonV::Str(s) = req.last() {
            if !prev.contains(JsonV::Str(s)) {
                let q = prev.push(JsonV::Str(s));
                assert forall|i: int| 0 <= i < q.len() implies n.contains(#[trigger] q[i]) by {
                    if i < prev.len() {
                        assert(q[i] == prev[i]);
                    }
                }
            }
        }
    }
}

/// Merging a part keeps the merged entries' shape.
proof fn lemma_merge_part_shape(m: Seq<(Seq<char>, JsonV)>, po: Seq<(Seq<char>, JsonV)>, n: Set<JsonV>)
    requires
        merged_entries(m, n),
        part_entries(po, n),
    ensures
        merged_entries(merge_part(m, po), n),
{
    reveal_strlit("required");
    reveal_strlit("properties");
    assert("required"@.len() != "properties"@.len());
    let pr = |kv: (Seq<char>, JsonV)| merged_entry(kv, n);
    let vn = |kv: (Seq<char>, JsonV)| n.contains(kv.1);
    assert forall|i: int| 0 <= i < m.len() implies #[trigger] pr(m[i]) by {
        assert(merged_entry(m[i], n));
    }
    let m1 = match obj_get(po, "properties"@) {
        Some(JsonV::Object(props)) => match obj_get(m, "properties"@) {
            Some(JsonV::Object(mp)) => obj_insert(m, "properties"@, JsonV::Object(insert_all(mp, props))),
            _ => obj_insert(m, "properties"@, JsonV::Object(props)),
        },
        _ => m,
    };
    if let Some(JsonV::Object(props)) = obj_get(po, "properties"@) {
        let j = lemma_obj_get_index(po, "properties"@);
        assert(part_entry(po[j], n));
        assert(values_in(props, n));
        lemma_obj_insert_sorted(m, "properties"@, obj_get(m, "properties"@).unwrap_or(JsonV::Null));
        match obj_get(m, "properties"@) {
            Some(JsonV::Object(mp)) => {
                let k = lemma_obj_get_index(m, "properties"@);
                assert(merged_entry(m[k], n));
                assert(values_in(mp, n));
                assert forall|i: int| 0 <= i < mp.len() implies #[trigger] vn(mp[i]) by {
                    assert(n.contains(mp[i].1));
                }
                assert forall|i: int| 0 <= i < props.len() implies #[trigger] vn(props[i]) by {
                    assert(n.contains(props[i].1));
                }
                lemma_insert_all_keeps(mp, props, vn);
                let u = insert_all(mp, props);
                assert(values_in(u, n)) by {
                    assert forall|i: int| 0 <= i < u.len() implies n.contains(#[trigger] u[i].1) by {
                        assert(vn(u[i]));
                    }
                }
                assert(pr(("properties"@, JsonV::Object(u))));
                lemma_insert_keeps(m, "properties"@, JsonV::Object(u), pr);
                lemma_obj_insert_sorted(m, "properties"@, JsonV::Object(u));
            },
            _ => {
                assert(pr(("properties"@, JsonV::Object(props))));
                lemma_insert_keeps(m, "properties"@, JsonV::Object(props), pr);
                lemma_obj_insert_sorted(m, "properties"@, JsonV::Object(props));
            },
        }
    }
    assert(keys_sorted(m1));
    assert(forall|i: int| 0 <= i < m1.len() ==> #[trigger] pr(m1[i]));
    let m2 = match obj_get(po, "required"@) {
        Some(JsonV::Array(req)) => match obj_get(m1, "required"@) {
            Some(JsonV::Array(mr)) => obj_insert(m1, "required"@, JsonV::Array(add_missing_strs(mr, req))),
            _ => obj_insert(m1, "required"@, JsonV::Array(req)),
        },
        _ => m1,
    };
    if let Some(JsonV::Array(req)) = obj_get(po, "required"@) {
        let j = lemma_obj_get_index(po, "required"@);
        assert(part_entry(po[j], n));
        assert(elems_in(req, n));
        match obj_get(m1, "required"@) {
            Some(JsonV::Array(mr)) => {
                let k = lemma_obj_get_index(m1, "required"@);
                assert(pr(m1[k]));
                assert(elems_in(mr, n));
                lemma_add_missing_in(mr, req, n);
                let a = JsonV::Array(add_missing_strs(mr, req));
                assert(pr(("required"@, a)));
                lemma_insert_keeps(m1, "required"@, a, pr);
                lemma_obj_insert_sorted(m1, "required"@, a);
            },
            _ => {
                assert(pr(("required"@, JsonV::Array(req))));
                lemma_insert_keeps(m1, "required"@, JsonV::Array(req), pr);
                lemma_obj_insert_sorted(m1, "required"@, JsonV::Array(req));
            },
        }
    }
    assert(keys_sorted(m2));
    assert(forall|i: int| 0 <= i < m2.len() ==> #[trigger] pr(m2[i]));
    assert forall|i: int|
        0 <= i < po.len() && po[i].0 != "properties"@ && po[i].0 != "required"@ implies #[trigger] pr(
        po[i],
    ) by {
        assert(part_entry(po[i], n));
    }
    lemma_insert_others_keeps(m2, po, pr);
    let r = merge_part(m, po);
    assert(r == insert_others(m2, po));
    assert forall|i: int| 0 <= i < r.len() implies merged_entry(#[trigger] r[i], n) by {
        assert(pr(r[i]));
    }
}


/// The object merged from the parts of the `allOf` array `a`, where the
/// merge succeeds within some budget (any budget gives the same one).
pub open spec fn merged_of(schema: JsonV, a: JsonV) -> JsonV {
    match a {
        JsonV::Array(parts) => {
            let g = choose|g: nat| #[trigger] merge_parts(schema, parts, g) is Some;
            match merge_parts(schema, parts, g) {
                Some(m) => JsonV::Object(m),
                None => JsonV::Null,
            }
        },
        _ => JsonV::Null,
    }
}

/// `x` lies in `n`, or is an object whose values lie in `n`, or is no object.
pub open spec fn shallow_in(x: JsonV, n: Set<JsonV>) -> bool {
    n.contains(x) || match x {
        JsonV::Object(e) => values_in(e, n),
        _ => true,
    }
}

/// `n` holds every value nested in the document.
pub open spec fn covers_schema(schema: JsonV, n: Set<JsonV>) -> bool {
    forall|z: JsonV| #[trigger] nested(schema).contains(z) ==> n.contains(z)
}

/// What resolving `x` may give: `x` itself, a value of `n`, or the object
/// merged from the parts of an `allOf` array of `n`.
pub open spec fn resolves_within(schema: JsonV, n: Set<JsonV>, x: JsonV, r: JsonV) -> bool {
    ||| r == x
    ||| n.contains(r)
    ||| exists|a: JsonV|
        #[trigger] n.contains(a) && a is Array && r == merged_of(schema, a) && (r matches JsonV::Object(
            m,
        ) && merged_entries(m, n))
}

proof fn lemma_resolve_shape(schema: JsonV, n: Set<JsonV>, x: JsonV, f: nat)
    requires
        nesting_closed(n),
        covers_schema(schema, n),
        shallow_in(x, n),
        resolve_fuel(schema, x, f) is Some,
    ensures
        resolves_within(schema, n, x, resolve_fuel(schema, x, f).unwrap()),
    decreases f, 0nat,
{
    if let JsonV::Object(obj) = x {
        let via_ref = match obj_get(obj, "$ref"@) {
            Some(JsonV::Str(r)) => resolve_ref_spec(schema, r),
            _ => None,
        };
        match via_ref {
            Some(t) => {
                let r = obj_get(obj, "$ref"@).unwrap()->Str_0;
                lemma_ref_target_nested(schema, r);
                assert(n.contains(t));
                lemma_resolve_shape(schema, n, t, (f - 1) as nat);
            },
            None => {
                if let Some(JsonV::Array(parts)) = obj_get(obj, "allOf"@) {
                    let a = JsonV::Array(parts);
                    if n.contains(x) {
                        lemma_member_nested(obj, "allOf"@);
                        assert(nested(x).contains(a));
                    } else {
                        let j = lemma_obj_get_index(obj, "allOf"@);
                        assert(n.contains(obj[j].1));
                    }
                    assert(n.contains(a));
                    lemma_array_elems_in(n, parts);
                    let f1 = (f - 1) as nat;
                    lemma_merge_shape(schema, n, parts, f1);
                    let g = choose|g: nat| #[trigger] merge_parts(schema, parts, g) is Some;
                    assert(merge_parts(schema, parts, g) is Some);
                    if g <= f1 {
                        lemma_merge_parts_monotone(schema, parts, g, f1);
                    } else {
                        lemma_merge_parts_monotone(schema, parts, f1, g);
                    }
                    let rr = resolve_fuel(schema, x, f).unwrap();
                    assert(rr == merged_of(schema, a));
                }
            },
        }
    }
}

proof fn lemma_merge_shape(schema: JsonV, n: Set<JsonV>, parts: Seq<JsonV>, f: nat)
    requires
        nesting_closed(n),
        covers_schema(schema, n),
        elems_in(parts, n),
        merge_parts(schema, parts, f) is Some,
    ensures
        merged_entries(merge_parts(schema, parts, f).unwrap(), n),
    decreases f, parts.len() + 1,
{
    if parts.len() > 0 {
        let d = parts.drop_last();
        assert forall|i: int| 0 <= i < d.len() implies n.contains(#[trigger] d[i]) by {
            assert(d[i] == parts[i]);
        }
        lemma_merge_shape(schema, n, d, f);
        let m = merge_parts(schema, d, f).unwrap();
        let p = parts.last();
        assert(n.contains(parts[parts.len() - 1]));
        lemma_resolve_shape(schema, n, p, f);
        let rp = resolve_fuel(schema, p, f).unwrap();
        if let JsonV::Object(po) = rp {
            if n.contains(rp) {
                lemma_object_values_in(n, po);
                lemma_part_entries_of(n, po);
            } else if rp == p {
                lemma_object_values_in(n, po);
                lemma_part_entries_of(n, po);
            } else {
                let a = choose|a: JsonV|
                    #[trigger] n.contains(a) && a is Array && rp == merged_of(schema, a) && (
                    rp matches JsonV::Object(m2) && merged_entries(m2, n));
                lemma_merged_part_entries(po, n);
            }
            lemma_merge_part_shape(m, po, n);
        }
    }
}


/// The `properties` of the object merged from the parts of `a` (`null` where
/// there is none).
pub open spec fn properties_of_merge(schema: JsonV, a: JsonV) -> JsonV {
    match merged_of(schema, a) {
        JsonV::Object(m) => match obj_get(m, "properties"@) {
            Some(w) => w,
            None => JsonV::Null,
        },
        _ => JsonV::Null,
    }
}

/// The `required` of the object merged from the parts of `a` (`null` where
/// there is none).
pub open spec fn required_of_merge(schema: JsonV, a: JsonV) -> JsonV {
    match merged_of(schema, a) {
        JsonV::Object(m) => match obj_get(m, "required"@) {
            Some(w) => w,
            None => JsonV::Null,
        },
        _ => JsonV::Null,
    }
}

/// The `anyOf` array made from the `enum` array `e`.
pub open spec fn any_of_enum(e: JsonV) -> JsonV {
    match e {
        JsonV::Array(vals) => JsonV::Array(enum_const_items(vals)),
        _ => JsonV::Null,
    }
}

/// `{"const": t}`.
pub open spec fn const_of(t: JsonV) -> JsonV {
    JsonV::Object(seq![("const"@, t)])
}

/// The values that resolving all the way down may meet, given the values
/// `n` nested in the document and in the value resolved.
pub open spec fn in_universe(schema: JsonV, n: Set<JsonV>, z: JsonV) -> bool {
    n.contains(z) || exists|a: JsonV|
        #[trigger] n.contains(a) && (z == properties_of_merge(schema, a) || z == required_of_merge(
            schema,
            a,
        ) || z == any_of_enum(a) || z == const_of(a))
}

proof fn lemma_merged_of_shape(schema: JsonV, n: Set<JsonV>, a: JsonV)
    requires
        nesting_closed(n),
        covers_schema(schema, n),
        n.contains(a),
    ensures
        merged_of(schema, a) matches JsonV::Object(m) ==> merged_entries(m, n),
{
    if let JsonV::Array(parts) = a {
        let g = choose|g: nat| #[trigger] merge_parts(schema, parts, g) is Some;
        if merge_parts(schema, parts, g) is Some {
            lemma_array_elems_in(n, parts);
            lemma_merge_shape(schema, n, parts, g);
        }
    }
}

proof fn lemma_strlits()
    ensures
        "required"@ != "properties"@,
        "enum"@ != "properties"@,
        "enum"@ != "required"@,
        "const"@ != "enum"@,
{
    reveal_strlit("required");
    reveal_strlit("properties");
    reveal_strlit("enum");
    reveal_strlit("const");
    assert("required"@.len() != "properties"@.len());
    assert("enum"@.len() != "properties"@.len());
    assert("enum"@.len() != "required"@.len());
    assert("const"@.len() != "enum"@.len());
}

proof fn lemma_properties_shape(schema: JsonV, n: Set<JsonV>, a: JsonV)
    requires
        nesting_closed(n),
        covers_schema(schema, n),
        n.contains(a),
    ensures
        properties_of_merge(schema, a) is Null || (properties_of_merge(schema, a) matches JsonV::Object(p)
            && values_in(p, n)),
{
    lemma_merged_of_shape(schema, n, a);
    if let JsonV::Object(m) = merged_of(schema, a) {
        if obj_get(m, "properties"@) is Some {
            let i = lemma_obj_get_index(m, "properties"@);
            assert(merged_entry(m[i], n));
        }
    }
}

proof fn lemma_required_shape(schema: JsonV, n: Set<JsonV>, a: JsonV)
    requires
        nesting_closed(n),
        covers_schema(schema, n),
        n.contains(a),
    ensures
        required_of_merge(schema, a) is Null || (required_of_merge(schema, a) matches JsonV::Array(r)
            && elems_in(r, n)),
{
    lemma_strlits();
    lemma_merged_of_shape(schema, n, a);
    if let JsonV::Object(m) = merged_of(schema, a) {
        if obj_get(m, "required"@) is Some {
            let i = lemma_obj_get_index(m, "required"@);
            assert(merged_entry(m[i], n));
        }
    }
}

proof fn lemma_enum_items(vals: Seq<JsonV>, n: Set<JsonV>)
    requires
        elems_in(vals, n),
    ensures
        forall|i: int|
            #![trigger enum_const_items(vals)[i]]
            0 <= i < enum_const_items(vals).len() ==> exists|t: JsonV|
                #[trigger] n.contains(t) && enum_const_items(vals)[i] == const_of(t),
    decreases vals.len(),
{
    if vals.len() > 0 {
        let d = vals.drop_last();
        assert forall|i: int| 0 <= i < d.len() implies n.contains(#[trigger] d[i]) by {
            assert(d[i] == vals[i]);
        }
        lemma_enum_items(d, n);
        let prev = enum_const_items(d);
        let items = enum_const_items(vals);
        assert(n.contains(vals[vals.len() - 1]));
        assert forall|i: int| #![trigger items[i]] 0 <= i < items.len() implies exists|t: JsonV|
            #[trigger] n.contains(t) && items[i] == const_of(t) by {
            if i < prev.len() {
                assert(items[i] == prev[i]);
            } else {
                assert(n.contains(vals.last()) && items[i] == const_of(vals.last()));
            }
        }
    }
}

/// Every value the universe holds is one whose resolution the shape lemma
/// covers.
proof fn lemma_universe_shallow(schema: JsonV, n: Set<JsonV>, y: JsonV)
    requires
        nesting_closed(n),
        covers_schema(schema, n),
        in_universe(schema, n, y),
    ensures
        shallow_in(y, n),
{
    if !n.contains(y) {
        let a = choose|a: JsonV|
            #[trigger] n.contains(a) && (y == properties_of_merge(schema, a) || y == required_of_merge(
                schema,
                a,
            ) || y == any_of_enum(a) || y == const_of(a));
        lemma_properties_shape(schema, n, a);
        lemma_required_shape(schema, n, a);
        if y == const_of(a) {
            let e = seq![("const"@, a)];
            assert(values_in(e, n)) by {
                assert forall|i: int| 0 <= i < e.len() implies n.contains(#[trigger] e[i].1) by {
                    assert(e[i].1 == a);
                }
            }
        }
    }
}

/// The values of the entries, each in the universe.
pub open spec fn universe_values(schema: JsonV, n: Set<JsonV>, e: Seq<(Seq<char>, JsonV)>) -> bool {
    forall|i: int| 0 <= i < e.len() ==> in_universe(schema, n, #[trigger] e[i].1)
}

proof fn lemma_anyof_in_universe(schema: JsonV, n: Set<JsonV>, obj: Seq<(Seq<char>, JsonV)>)
    requires
        universe_values(schema, n, obj),
        obj_get(obj, "enum"@) matches Some(JsonV::Array(vals)) ==> n.contains(JsonV::Array(vals)),
    ensures
        universe_values(schema, n, enum_to_anyof(obj)),
{
    let pr = |kv: (Seq<char>, JsonV)| in_universe(schema, n, kv.1);
    assert forall|i: int| 0 <= i < obj.len() implies #[trigger] pr(obj[i]) by {
        assert(in_universe(schema, n, obj[i].1));
    }
    let r = enum_to_anyof(obj);
    if let Some(JsonV::Array(vals)) = obj_get(obj, "enum"@) {
        lemma_remove_keeps(obj, "enum"@, pr);
        let rest = obj_remove(obj, "enum"@);
        let items = enum_const_items(vals);
        if items.len() > 0 {
            let e = JsonV::Array(vals);
            assert(n.contains(e) && JsonV::Array(items) == any_of_enum(e));
            assert(pr(("anyOf"@, JsonV::Array(items))));
            lemma_insert_keeps(rest, "anyOf"@, JsonV::Array(items), pr);
        }
    }
    assert forall|i: int| 0 <= i < r.len() implies in_universe(schema, n, #[trigger] r[i].1) by {
        assert(pr(r[i]));
    }
}


/// What resolving a value of the universe goes on into lies in the universe.
proof fn lemma_children_in_universe(schema: JsonV, n: Set<JsonV>, y: JsonV, w: JsonV)
    requires
        nesting_closed(n),
        covers_schema(schema, n),
        in_universe(schema, n, y),
        deep_child(schema, y, w),
    ensures
        in_universe(schema, n, w),
{
    lemma_strlits();
    lemma_universe_shallow(schema, n, y);
    lemma_resolve_shape(schema, n, y, ref_budget(schema, y));
    let r = resolved(schema, y).unwrap();
    match r {
        JsonV::Object(obj) => {
            if n.contains(r) || r == y {
                if n.contains(r) {
                    lemma_object_values_in(n, obj);
                }
                assert(values_in(obj, n));
                assert forall|i: int| 0 <= i < obj.len() implies in_universe(
                    schema,
                    n,
                    #[trigger] obj[i].1,
                ) by {
                    assert(n.contains(obj[i].1));
                }
                if let Some(JsonV::Array(vals)) = obj_get(obj, "enum"@) {
                    let j = lemma_obj_get_index(obj, "enum"@);
                    assert(n.contains(obj[j].1));
                }
            } else {
                let a = choose|a: JsonV|
                    #[trigger] n.contains(a) && a is Array && r == merged_of(schema, a) && (
                    r matches JsonV::Object(m) && merged_entries(m, n));
                assert forall|i: int| 0 <= i < obj.len() implies in_universe(
                    schema,
                    n,
                    #[trigger] obj[i].1,
                ) by {
                    assert(merged_entry(obj[i], n));
                    if obj[i].0 == "properties"@ {
                        lemma_sorted_get_at(obj, i);
                        assert(obj[i].1 == properties_of_merge(schema, a));
                    } else if obj[i].0 == "required"@ {
                        lemma_sorted_get_at(obj, i);
                        assert(obj[i].1 == required_of_merge(schema, a));
                    }
                }
                if let Some(JsonV::Array(vals)) = obj_get(obj, "enum"@) {
                    let j = lemma_obj_get_index(obj, "enum"@);
                    assert(merged_entry(obj[j], n));
                }
            }
            lemma_anyof_in_universe(schema, n, obj);
            let e = enum_to_anyof(obj);
            let i = choose|i: int| 0 <= i < e.len() && #[trigger] e[i].1 == w;
            assert(in_universe(schema, n, e[i].1));
        },
        JsonV::Array(a) => {
            let i = choose|i: int| 0 <= i < a.len() && #[trigger] a[i] == w;
            if n.contains(r) {
                lemma_array_elems_in(n, a);
                assert(n.contains(a[i]));
            } else if r == y {
                let a0 = choose|a0: JsonV|
                    #[trigger] n.contains(a0) && (y == properties_of_merge(schema, a0)
                        || y == required_of_merge(schema, a0) || y == any_of_enum(a0) || y
                        == const_of(a0));
                lemma_properties_shape(schema, n, a0);
                lemma_required_shape(schema, n, a0);
                if y == required_of_merge(schema, a0) {
                    assert(n.contains(a[i]));
                } else if y == any_of_enum(a0) {
                    let vals = a0->Array_0;
                    lemma_array_elems_in(n, vals);
                    lemma_enum_items(vals, n);
                    assert(a[i] == enum_const_items(vals)[i]);
                    let t = choose|t: JsonV| #[trigger] n.contains(t) && a[i] == const_of(t);
                    assert(in_universe(schema, n, a[i]));
                }
            }
        },
        _ => {},
    }
}


proof fn lemma_entries_each(schema: JsonV, e: Seq<(Seq<char>, JsonV)>, f: nat)
    requires
        resolve_deep_entries(schema, e, f) is Some,
    ensures
        forall|i: int| 0 <= i < e.len() ==> resolve_deep(schema, #[trigger] e[i].1, f) is Some,
    decreases e.len(),
{
    if e.len() > 0 {
        lemma_entries_each(schema, e.drop_last(), f);
        assert forall|i: int| 0 <= i < e.len() implies resolve_deep(schema, #[trigger] e[i].1, f) is Some by {
            if i < e.len() - 1 {
                assert(e.drop_last()[i] == e[i]);
            }
        }
    }
}

proof fn lemma_entries_all(schema: JsonV, e: Seq<(Seq<char>, JsonV)>, f: nat)
    requires
        forall|i: int| 0 <= i < e.len() ==> resolve_deep(schema, #[trigger] e[i].1, f) is Some,
    ensures
        resolve_deep_entries(schema, e, f) is Some,
    decreases e.len(),
{
    if e.len() > 0 {
        let d = e.drop_last();
        assert forall|i: int| 0 <= i < d.len() implies resolve_deep(schema, #[trigger] d[i].1, f) is Some by {
            assert(d[i] == e[i]);
        }
        lemma_entries_all(schema, d, f);
        assert(resolve_deep(schema, e[e.len() - 1].1, f) is Some);
    }
}

proof fn lemma_values_each(schema: JsonV, s: Seq<JsonV>, f: nat)
    requires
        resolve_deep_values(schema, s, f) is Some,
    ensures
        forall|i: int| 0 <= i < s.len() ==> resolve_deep(schema, #[trigger] s[i], f) is Some,
    decreases s.len(),
{
    if s.len() > 0 {
        lemma_values_each(schema, s.drop_last(), f);
        assert forall|i: int| 0 <= i < s.len() implies resolve_deep(schema, #[trigger] s[i], f) is Some by {
            if i < s.len() - 1 {
                assert(s.drop_last()[i] == s[i]);
            }
        }
    }
}

proof fn lemma_values_all(schema: JsonV, s: Seq<JsonV>, f: nat)
    requires
        forall|i: int| 0 <= i < s.len() ==> resolve_deep(schema, #[trigger] s[i], f) is Some,
    ensures
        resolve_deep_values(schema, s, f) is Some,
    decreases s.len(),
{
    if s.len() > 0 {
        let d = s.drop_last();
        assert forall|i: int| 0 <= i < d.len() implies resolve_deep(schema, #[trigger] d[i], f) is Some by {
            assert(d[i] == s[i]);
        }
        lemma_values_all(schema, d, f);
        assert(resolve_deep(schema, s[s.len() - 1], f) is Some);
    }
}

/// A larger budget never changes a resolution all the way down that
/// succeeded.
pub proof fn lemma_resolve_deep_monotone(schema: JsonV, v: JsonV, f1: nat, f2: nat)
    requires
        f1 <= f2,
        resolve_deep(schema, v, f1) is Some,
    ensures
        resolve_deep(schema, v, f2) == resolve_deep(schema, v, f1),
    decreases f1, 0nat,
{
    match resolved(schema, v) {
        Some(JsonV::Object(obj)) => {
            lemma_entries_monotone(schema, enum_to_anyof(obj), (f1 - 1) as nat, (f2 - 1) as nat);
        },
        Some(JsonV::Array(a)) => {
            lemma_values_monotone(schema, a, (f1 - 1) as nat, (f2 - 1) as nat);
        },
        _ => {},
    }
}

proof fn lemma_entries_monotone(schema: JsonV, e: Seq<(Seq<char>, JsonV)>, f1: nat, f2: nat)
    requires
        f1 <= f2,
        resolve_deep_entries(schema, e, f1) is Some,
    ensures
        resolve_deep_entries(schema, e, f2) == resolve_deep_entries(schema, e, f1),
    decreases f1, e.len() + 1,
{
    if e.len() > 0 {
        lemma_entries_monotone(schema, e.drop_last(), f1, f2);
        lemma_resolve_deep_monotone(schema, e.last().1, f1, f2);
    }
}

proof fn lemma_values_monotone(schema: JsonV, s: Seq<JsonV>, f1: nat, f2: nat)
    requires
        f1 <= f2,
        resolve_deep_values(schema, s, f1) is Some,
    ensures
        resolve_deep_values(schema, s, f2) == resolve_deep_values(schema, s, f1),
    decreases f1, s.len() + 1,
{
    if s.len() > 0 {
        lemma_values_monotone(schema, s.drop_last(), f1, f2);
        lemma_resolve_deep_monotone(schema, s.last(), f1, f2);
    }
}

/// A path without repeats inside a finite set closed under going down that
/// resolves at all resolves from its last value within as many levels as
/// the set has values the path has not met.
proof fn lemma_deep_within(schema: JsonV, u: Set<JsonV>, path: Seq<JsonV>, fuel: nat)
    requires
        u.finite(),
        path.len() > 0,
        path.no_duplicates(),
        forall|i: int| 0 <= i < path.len() ==> u.contains(#[trigger] path[i]),
        forall|y: JsonV, z: JsonV| u.contains(y) && #[trigger] deep_child(schema, y, z) ==> u.contains(z),
        deep_path(schema, path),
        resolve_deep(schema, path.last(), fuel) is Some,
    ensures
        path.len() <= u.len(),
        resolve_deep(schema, path.last(), (u.len() - path.len() + 1) as nat) is Some,
    decreases fuel,
{
    path.unique_seq_to_set();
    assert(path.to_set().subset_of(u));
    vstd::set_lib::lemma_len_subset(path.to_set(), u);
    let x = path.last();
    let k = (u.len() - path.len() + 1) as nat;
    let f1 = (fuel - 1) as nat;
    assert forall|y: JsonV| #[trigger] deep_child(schema, x, y) && resolve_deep(schema, y, f1) is Some implies
        resolve_deep(schema, y, (k - 1) as nat) is Some by {
        assert(u.contains(x));
        if path.contains(y) {
            let j = choose|j: int| 0 <= j < path.len() && path[j] == y;
            lemma_cycle_unresolved(schema, path, j, fuel);
            assert(resolve_deep(schema, path[path.len() - 1], fuel) is None);
        }
        let p2 = path.push(y);
        assert forall|i: int| 0 <= i < p2.len() implies u.contains(#[trigger] p2[i]) by {
            if i < path.len() {
                assert(p2[i] == path[i]);
            }
        }
        assert forall|j: int| 0 <= j < p2.len() - 1 implies #[trigger] deep_child(
            schema,
            p2[j],
            p2[j + 1],
        ) by {
            if j < path.len() - 1 {
                assert(p2[j] == path[j] && p2[j + 1] == path[j + 1]);
                assert(deep_child(schema, path[j], path[j + 1]));
            }
        }
        assert(p2.no_duplicates()) by {
            assert forall|a: int, b: int| 0 <= a < p2.len() && 0 <= b < p2.len() && a != b implies p2[a]
                != p2[b] by {
                if a < path.len() && b < path.len() {
                    assert(p2[a] == path[a] && p2[b] == path[b]);
                } else if a < path.len() {
                    assert(p2[a] == path[a]);
                    assert(path.contains(p2[a]));
                } else if b < path.len() {
                    assert(p2[b] == path[b]);
                    assert(path.contains(p2[b]));
                }
            }
        }
        assert(p2.last() == y);
        lemma_deep_within(schema, u, p2, f1);
    }
    match resolved(schema, x) {
        Some(JsonV::Object(obj)) => {
            let e = enum_to_anyof(obj);
            lemma_entries_each(schema, e, f1);
            assert forall|i: int| 0 <= i < e.len() implies resolve_deep(
                schema,
                #[trigger] e[i].1,
                (k - 1) as nat,
            ) is Some by {
                assert(deep_child(schema, x, e[i].1));
            }
            lemma_entries_all(schema, e, (k - 1) as nat);
        },
        Some(JsonV::Array(a)) => {
            lemma_values_each(schema, a, f1);
            assert forall|i: int| 0 <= i < a.len() implies resolve_deep(
                schema,
                #[trigger] a[i],
                (k - 1) as nat,
            ) is Some by {
                assert(deep_child(schema, x, a[i]));
            }
            lemma_values_all(schema, a, (k - 1) as nat);
        },
        _ => {},
    }
}

/// The universe is finite, with at most five values for each value of `n`.
proof fn lemma_universe_size(schema: JsonV, n: Set<JsonV>) -> (u: Set<JsonV>)
    requires
        n.finite(),
    ensures
        u.finite(),
        u.len() <= 5 * n.len(),
        forall|z: JsonV| in_universe(schema, n, z) <==> #[trigger] u.contains(z),
{
    let pf = |a: JsonV| properties_of_merge(schema, a);
    let rf = |a: JsonV| required_of_merge(schema, a);
    let af = |a: JsonV| any_of_enum(a);
    let cf = |a: JsonV| const_of(a);
    let m1 = n.map(pf);
    let m2 = n.map(rf);
    let m3 = n.map(af);
    let m4 = n.map(cf);
    vstd::set_lib::lemma_map_size_bound(n, m1, pf);
    vstd::set_lib::lemma_map_size_bound(n, m2, rf);
    vstd::set_lib::lemma_map_size_bound(n, m3, af);
    vstd::set_lib::lemma_map_size_bound(n, m4, cf);
    let u1 = n.union(m1);
    let u2 = u1.union(m2);
    let u3 = u2.union(m3);
    let u = u3.union(m4);
    vstd::set_lib::lemma_len_union(n, m1);
    vstd::set_lib::lemma_len_union(u1, m2);
    vstd::set_lib::lemma_len_union(u2, m3);
    vstd::set_lib::lemma_len_union(u3, m4);
    assert forall|z: JsonV| in_universe(schema, n, z) implies #[trigger] u.contains(z) by {
        if !n.contains(z) {
            let a = choose|a: JsonV|
                #[trigger] n.contains(a) && (z == properties_of_merge(schema, a) || z
                    == required_of_merge(schema, a) || z == any_of_enum(a) || z == const_of(a));
            if z == properties_of_merge(schema, a) {
                assert(m1.contains(pf(a)));
            } else if z == required_of_merge(schema, a) {
                assert(m2.contains(rf(a)));
            } else if z == any_of_enum(a) {
                assert(m3.contains(af(a)));
            } else {
                assert(m4.contains(cf(a)));
            }
        }
    }
    assert forall|z: JsonV| #[trigger] u.contains(z) implies in_universe(schema, n, z) by {
        if !n.contains(z) {
            if m1.contains(z) {
                let a = choose|a: JsonV| n.contains(a) && z == pf(a);
                assert(n.contains(a) && z == properties_of_merge(schema, a));
            } else if m2.contains(z) {
                let a = choose|a: JsonV| n.contains(a) && z == rf(a);
                assert(n.contains(a) && z == required_of_merge(schema, a));
            } else if m3.contains(z) {
                let a = choose|a: JsonV| n.contains(a) && z == af(a);
                assert(n.contains(a) && z == any_of_enum(a));
            } else {
                assert(m4.contains(z));
                let a = choose|a: JsonV| n.contains(a) && z == cf(a);
                assert(n.contains(a) && z == const_of(a));
            }
        }
    }
    u
}

/// A value that resolves all the way down within some budget does so within
/// the budget of the document, to the same schema: resolving every level
/// fails only where a path of references leads back to where it started.
pub proof fn lemma_deep_budget_suffices(schema: JsonV, v: JsonV, fuel: nat)
    requires
        5 * (jsize(schema) + jsize(v)) + 5 <= usize::MAX,
        resolve_deep(schema, v, fuel) is Some,
    ensures
        resolved_deep(schema, v) == resolve_deep(schema, v, fuel),
{
    let n = nested(schema).union(nested(v));
    lemma_nested_size(schema);
    lemma_nested_size(v);
    vstd::set_lib::lemma_len_union(nested(schema), nested(v));
    assert(nesting_closed(n)) by {
        assert forall|y: JsonV, z: JsonV| n.contains(y) && #[trigger] nested(y).contains(z) implies n.contains(
            z,
        ) by {
            if nested(schema).contains(y) {
                lemma_nested_trans(schema, y, z);
            } else {
                lemma_nested_trans(v, y, z);
            }
        }
    }
    assert(covers_schema(schema, n));
    let u = lemma_universe_size(schema, n);
    assert forall|y: JsonV, z: JsonV| u.contains(y) && #[trigger] deep_child(schema, y, z) implies u.contains(
        z,
    ) by {
        lemma_children_in_universe(schema, n, y, z);
    }
    assert(nested(v).contains(v));
    assert(u.contains(v));
    let path = seq![v];
    assert(path.last() == v);
    assert forall|i: int| 0 <= i < path.len() implies u.contains(#[trigger] path[i]) by {
        assert(path[i] == v);
    }
    lemma_deep_within(schema, u, path, fuel);
    let k = u.len();
    let t: nat = jsize(schema) + jsize(v);
    crate::json::lemma_jsize_pos(schema);
    assert(t * t >= t) by (nonlinear_arith)
        requires
            t >= 1,
    ;
    assert(k <= 5 * t);
    assert(k <= deep_budget(schema, v));
    if fuel <= k {
        lemma_resolve_deep_monotone(schema, v, fuel, k);
    } else {
        lemma_resolve_deep_monotone(schema, v, k, fuel);
    }
    lemma_resolve_deep_monotone(schema, v, k, deep_budget(schema, v));
}

} // verus!
