//! JSON values as the library reads and builds them.
//!
//! Objects keep their entries ordered by key (character by character, the
//! order of `String`), each key at most once, as a sorted map does; `insert`
//! keeps that order and replaces the value of a key that is already there.
use vstd::prelude::*;

use crate::text::{chars_of, str_eq};

verus! {

/// A JSON number: its decimal text, and whether it is an integer that fits in `i64`.
#[derive(Debug, Clone, PartialEq, Eq)]
pub struct JsonNumber {
    pub text: String,
    pub is_i64: bool,
}

/// A JSON value.
#[derive(Debug, PartialEq, Eq)]
pub enum Json {
    Null,
    Bool(bool),
    Number(JsonNumber),
    String(String),
    Array(Vec<Json>),
    Object(Vec<(String, Json)>),
}

/// The mathematical model of a JSON value.
pub enum JsonV {
    Null,
    Bool(bool),
    Number(Seq<char>, bool),
    Str(Seq<char>),
    Array(Seq<JsonV>),
    Object(Seq<(Seq<char>, JsonV)>),
}

/// The model of a JSON value.
pub open spec fn json_view(j: &Json) -> JsonV
    decreases j,
{
    match j {
        Json::Null => JsonV::Null,
        Json::Bool(b) => JsonV::Bool(*b),
        Json::Number(n) => JsonV::Number(n.text@, n.is_i64),
        Json::String(s) => JsonV::Str(s@),
        Json::Array(v) => JsonV::Array(
            Seq::new(
                v.len() as nat,
                |i: int|
                    if 0 <= i < v.len() {
                        json_view(&v[i])
                    } else {
                        JsonV::Null
                    },
            ),
        ),
        Json::Object(v) => JsonV::Object(
            Seq::new(
                v.len() as nat,
                |i: int|
                    if 0 <= i < v.len() {
                        (v[i].0@, json_view(&v[i].1))
                    } else {
                        (Seq::empty(), JsonV::Null)
                    },
            ),
        ),
    }
}

impl View for Json {
    type V = JsonV;

    open spec fn view(&self) -> JsonV {
        json_view(self)
    }
}

/// The models of a sequence of values.
pub open spec fn values_view(v: Seq<Json>) -> Seq<JsonV> {
    Seq::new(v.len(), |i: int| v[i]@)
}

/// The models of a sequence of object entries.
pub open spec fn entries_view(e: Seq<(String, Json)>) -> Seq<(Seq<char>, JsonV)> {
    Seq::new(e.len(), |i: int| (e[i].0@, e[i].1@))
}

pub proof fn lemma_array_view(v: Vec<Json>)
    ensures
        Json::Array(v)@ == JsonV::Array(values_view(v@)),
{
    let j = Json::Array(v);
    assert(j@ is Array);
    let s = j@->Array_0;
    assert(forall|i: int| 0 <= i < v.len() ==> s[i] == v[i]@);
    assert(s =~= values_view(v@));
}

pub proof fn lemma_object_view(e: Vec<(String, Json)>)
    ensures
        Json::Object(e)@ == JsonV::Object(entries_view(e@)),
{
    let j = Json::Object(e);
    assert(j@ is Object);
    let s = j@->Object_0;
    assert(s.len() == e.len());
    assert(forall|i: int| 0 <= i < e.len() ==> s[i] == (e[i].0@, e[i].1@));
    assert(s =~= entries_view(e@));
}

// ---------------------------------------------------------------------------
// Key order and object entries
// ---------------------------------------------------------------------------

/// The order of `String`: lexicographic by character (a proper prefix comes first).
pub open spec fn key_lt(a: Seq<char>, b: Seq<char>) -> bool
    decreases a.len(),
{
    if a.len() == 0 {
        b.len() > 0
    } else if b.len() == 0 {
        false
    } else if a[0] != b[0] {
        a[0] < b[0]
    } else {
        key_lt(a.drop_first(), b.drop_first())
    }
}

/// The value stored under `k`, if any.
pub open spec fn obj_get(e: Seq<(Seq<char>, JsonV)>, k: Seq<char>) -> Option<JsonV>
    decreases e.len(),
{
    if e.len() == 0 {
        None
    } else if e[0].0 == k {
        Some(e[0].1)
    } else {
        obj_get(e.drop_first(), k)
    }
}

/// The entries after storing `v` under `k`: the value is replaced where `k` is
/// present, else a new entry goes before the first greater key.
pub open spec fn obj_insert(e: Seq<(Seq<char>, JsonV)>, k: Seq<char>, v: JsonV) -> Seq<
    (Seq<char>, JsonV),
>
    decreases e.len(),
{
    if e.len() == 0 {
        seq![(k, v)]
    } else if e[0].0 == k {
        e.update(0, (k, v))
    } else if key_lt(k, e[0].0) {
        seq![(k, v)] + e
    } else {
        seq![e[0]] + obj_insert(e.drop_first(), k, v)
    }
}

/// The entries after removing the entry of `k`, if any.
pub open spec fn obj_remove(e: Seq<(Seq<char>, JsonV)>, k: Seq<char>) -> Seq<(Seq<char>, JsonV)>
    decreases e.len(),
{
    if e.len() == 0 {
        e
    } else if e[0].0 == k {
        e.drop_first()
    } else {
        seq![e[0]] + obj_remove(e.drop_first(), k)
    }
}

/// The entries are in strictly increasing key order.
pub open spec fn keys_sorted(e: Seq<(Seq<char>, JsonV)>) -> bool {
    forall|i: int, j: int| 0 <= i < j < e.len() ==> key_lt(#[trigger] e[i].0, #[trigger] e[j].0)
}

/// The object made by inserting the given entries in order into an empty object.
pub open spec fn obj_from(pairs: Seq<(Seq<char>, JsonV)>) -> Seq<(Seq<char>, JsonV)>
    decreases pairs.len(),
{
    if pairs.len() == 0 {
        Seq::empty()
    } else {
        obj_insert(obj_from(pairs.drop_last()), pairs.last().0, pairs.last().1)
    }
}

// ---------------------------------------------------------------------------
// Reading values
// ---------------------------------------------------------------------------

/// `Value::get` with a key: the member of an object, `None` for other values.
pub open spec fn jget(j: JsonV, k: Seq<char>) -> Option<JsonV> {
    match j {
        JsonV::Object(e) => obj_get(e, k),
        _ => None,
    }
}

pub open spec fn jstr(j: JsonV) -> Option<Seq<char>> {
    match j {
        JsonV::Str(s) => Some(s),
        _ => None,
    }
}

pub open spec fn jarr(j: JsonV) -> Option<Seq<JsonV>> {
    match j {
        JsonV::Array(s) => Some(s),
        _ => None,
    }
}

pub open spec fn jobj(j: JsonV) -> Option<Seq<(Seq<char>, JsonV)>> {
    match j {
        JsonV::Object(e) => Some(e),
        _ => None,
    }
}

pub open spec fn jbool(j: JsonV) -> Option<bool> {
    match j {
        JsonV::Bool(b) => Some(b),
        _ => None,
    }
}

/// The string under key `k` of an object.
pub open spec fn get_str(j: JsonV, k: Seq<char>) -> Option<Seq<char>> {
    match jget(j, k) {
        Some(v) => jstr(v),
        None => None,
    }
}

/// The array under key `k` of an object.
pub open spec fn get_arr(j: JsonV, k: Seq<char>) -> Option<Seq<JsonV>> {
    match jget(j, k) {
        Some(v) => jarr(v),
        None => None,
    }
}

/// The object under key `k` of an object.
pub open spec fn get_obj(j: JsonV, k: Seq<char>) -> Option<Seq<(Seq<char>, JsonV)>> {
    match jget(j, k) {
        Some(v) => jobj(v),
        None => None,
    }
}

/// The boolean under key `k` of an object.
pub open spec fn get_bool(j: JsonV, k: Seq<char>) -> Option<bool> {
    match jget(j, k) {
        Some(v) => jbool(v),
        None => None,
    }
}

impl Json {
    /// A string value with the characters of `s`.
    pub fn from_str(s: &str) -> (r: Json)
        ensures
            r@ == JsonV::Str(s@),
    {
        Json::String(s.to_owned())
    }

    /// An empty object.
    pub fn empty_object() -> (r: Json)
        ensures
            r@ == JsonV::Object(Seq::empty()),
    {
        let e: Vec<(String, Json)> = Vec::new();
        proof {
            lemma_object_view(e);
        }
        assert(entries_view(e@) =~= Seq::empty());
        Json::Object(e)
    }

    /// An object with the given entries.
    pub fn object(e: Vec<(String, Json)>) -> (r: Json)
        ensures
            r@ == JsonV::Object(entries_view(e@)),
    {
        proof {
            lemma_object_view(e);
        }
        Json::Object(e)
    }

    /// An array with the given elements.
    pub fn array(v: Vec<Json>) -> (r: Json)
        ensures
            r@ == JsonV::Array(values_view(v@)),
    {
        proof {
            lemma_array_view(v);
        }
        Json::Array(v)
    }

    /// The string held by a string value.
    pub fn as_str(&self) -> (r: Option<&String>)
        ensures
            match r {
                Some(s) => jstr(self@) == Some(s@),
                None => jstr(self@) is None,
            },
    {
        match self {
            Json::String(s) => Some(s),
            _ => None,
        }
    }

    /// The boolean held by a boolean value.
    pub fn as_bool(&self) -> (r: Option<bool>)
        ensures
            r == jbool(self@),
    {
        match self {
            Json::Bool(b) => Some(*b),
            _ => None,
        }
    }

    /// The elements of an array value.
    pub fn as_array(&self) -> (r: Option<&Vec<Json>>)
        ensures
            match r {
                Some(v) => jarr(self@) == Some(values_view(v@)),
                None => jarr(self@) is None,
            },
    {
        match self {
            Json::Array(v) => {
                proof {
                    lemma_array_view(*v);
                }
                Some(v)
            },
            _ => None,
        }
    }

    /// The entries of an object value.
    pub fn as_object(&self) -> (r: Option<&Vec<(String, Json)>>)
        ensures
            match r {
                Some(e) => jobj(self@) == Some(entries_view(e@)),
                None => jobj(self@) is None,
            },
    {
        match self {
            Json::Object(e) => {
                proof {
                    lemma_object_view(*e);
                }
                Some(e)
            },
            _ => None,
        }
    }

    /// Whether this is `null`.
    pub fn is_null(&self) -> (r: bool)
        ensures
            r == (self@ == JsonV::Null),
    {
        match self {
            Json::Null => true,
            _ => false,
        }
    }

    /// The member `key` of an object value.
    pub fn get(&self, key: &str) -> (r: Option<&Json>)
        ensures
            match r {
                Some(v) => jget(self@, key@) == Some(v@),
                None => jget(self@, key@) is None,
            },
    {
        match self {
            Json::Object(e) => {
                proof {
                    lemma_object_view(*e);
                }
                obj_lookup(e, key)
            },
            _ => None,
        }
    }

    /// A copy of this value.
    pub fn deep_clone(&self) -> (r: Json)
        ensures
            r@ == self@,
        decreases self,
    {
        match self {
            Json::Null => Json::Null,
            Json::Bool(b) => Json::Bool(*b),
            Json::Number(n) => Json::Number(JsonNumber { text: n.text.clone(), is_i64: n.is_i64 }),
            Json::String(s) => Json::String(s.clone()),
            Json::Array(v) => {
                assert(decreases_to!(*self => *v));
                let out = clone_values(v);
                proof {
                    lemma_array_view(*v);
                }
                Json::array(out)
            },
            Json::Object(e) => {
                assert(decreases_to!(*self => *e));
                let out = clone_entries(e);
                proof {
                    lemma_object_view(*e);
                }
                Json::object(out)
            },
        }
    }
}

/// Copies of the given values.
pub fn clone_values(v: &Vec<Json>) -> (r: Vec<Json>)
    ensures
        values_view(r@) == values_view(v@),
    decreases v,
{
    let mut out: Vec<Json> = Vec::new();
    let mut i: usize = 0;
    while i < v.len()
        invariant
            i <= v.len(),
            out@.len() == i,
            values_view(out@) == values_view(v@).subrange(0, i as int),
        decreases v.len() - i,
    {
        assert(decreases_to!(*v => v[i as int]));
        out.push(v[i].deep_clone());
        i = i + 1;
        assert(values_view(out@) =~= values_view(v@).subrange(0, i as int));
    }
    assert(values_view(v@).subrange(0, v.len() as int) =~= values_view(v@));
    out
}

/// Copies of the given object entries.
pub fn clone_entries(e: &Vec<(String, Json)>) -> (r: Vec<(String, Json)>)
    ensures
        entries_view(r@) == entries_view(e@),
    decreases e,
{
    let mut out: Vec<(String, Json)> = Vec::new();
    let mut i: usize = 0;
    while i < e.len()
        invariant
            i <= e.len(),
            out@.len() == i,
            entries_view(out@) == entries_view(e@).subrange(0, i as int),
        decreases e.len() - i,
    {
        assert(decreases_to!(*e => e[i as int]));
        assert(decreases_to!(e[i as int] => e[i as int].1));
        out.push((e[i].0.clone(), e[i].1.deep_clone()));
        i = i + 1;
        assert(entries_view(out@) =~= entries_view(e@).subrange(0, i as int));
    }
    assert(entries_view(e@).subrange(0, e.len() as int) =~= entries_view(e@));
    out
}

/// The value stored under `key` among the entries `e`.
pub fn obj_lookup<'a>(e: &'a Vec<(String, Json)>, key: &str) -> (r: Option<&'a Json>)
    ensures
        match r {
            Some(v) => obj_get(entries_view(e@), key@) == Some(v@),
            None => obj_get(entries_view(e@), key@) is None,
        },
{
    let mut i: usize = 0;
    assert(entries_view(e@).skip(0) =~= entries_view(e@));
    while i < e.len()
        invariant
            i <= e.len(),
            obj_get(entries_view(e@), key@) == obj_get(entries_view(e@).skip(i as int), key@),
        decreases e.len() - i,
    {
        assert(entries_view(e@).skip(i as int).drop_first() =~= entries_view(e@).skip(i + 1));
        if str_eq(e[i].0.as_str(), key) {
            return Some(&e[i].1);
        }
        i = i + 1;
    }
    None
}

/// Whether the entries hold the key `key`.
pub fn obj_contains_key(e: &Vec<(String, Json)>, key: &str) -> (r: bool)
    ensures
        r == obj_get(entries_view(e@), key@) is Some,
{
    obj_lookup(e, key).is_some()
}

/// Whether `a` comes before `b` in the order of `String`.
pub fn key_lt_exec(a: &Vec<char>, b: &Vec<char>) -> (r: bool)
    ensures
        r == key_lt(a@, b@),
{
    let mut i: usize = 0;
    assert(a@.skip(0) =~= a@);
    assert(b@.skip(0) =~= b@);
    while i < a.len() && i < b.len() && a[i] == b[i]
        invariant
            i <= a.len(),
            i <= b.len(),
            key_lt(a@, b@) == key_lt(a@.skip(i as int), b@.skip(i as int)),
        decreases a.len() - i,
    {
        assert(a@.skip(i as int).drop_first() =~= a@.skip(i + 1));
        assert(b@.skip(i as int).drop_first() =~= b@.skip(i + 1));
        i = i + 1;
    }
    if i == a.len() {
        i < b.len()
    } else if i == b.len() {
        false
    } else {
        a[i] < b[i]
    }
}

/// Stores `v` under `k`: replaces the value where `k` is present, else inserts
/// a new entry before the first greater key.
pub fn obj_insert_exec(e: &mut Vec<(String, Json)>, k: String, v: Json)
    ensures
        entries_view(final(e)@) == obj_insert(entries_view(old(e)@), k@, v@),
{
    let kc = chars_of(k.as_str());
    let mut i: usize = 0;
    let ghost e0 = entries_view(e@);
    assert(e0.skip(0) =~= e0);
    assert(e0.take(0) + obj_insert(e0.skip(0), k@, v@) =~= obj_insert(e0, k@, v@));
    while i < e.len()
        invariant
            i <= e.len(),
            entries_view(e@) == e0,
            e0 == entries_view(old(e)@),
            kc@ == k@,
            obj_insert(e0, k@, v@) == e0.take(i as int) + obj_insert(e0.skip(i as int), k@, v@),
        decreases e.len() - i,
    {
        let ghost rest = e0.skip(i as int);
        assert(rest[0] == e0[i as int]);
        if str_eq(e[i].0.as_str(), k.as_str()) {
            assert(rest.len() > 0 && rest[0].0 == k@);
            assert(obj_insert(rest, k@, v@) == rest.update(0, (k@, v@)));
            e.set(i, (k, v));
            assert(entries_view(e@) =~= e0.take(i as int) + rest.update(0, (k@, v@)));
            assert(entries_view(e@) == obj_insert(e0, k@, v@));
            return ;
        }
        let ec = chars_of(e[i].0.as_str());
        if key_lt_exec(&kc, &ec) {
            assert(rest[0].0 != k@ && key_lt(k@, rest[0].0));
            assert(obj_insert(rest, k@, v@) == seq![(k@, v@)] + rest);
            e.insert(i, (k, v));
            assert(entries_view(e@) =~= e0.take(i as int) + (seq![(k@, v@)] + rest));
            assert(entries_view(e@) == obj_insert(e0, k@, v@));
            return ;
        }
        assert(rest.drop_first() =~= e0.skip(i + 1));
        assert(e0.take(i + 1) =~= e0.take(i as int) + seq![rest[0]]);
        i = i + 1;
    }
    assert(e0.skip(i as int) =~= Seq::<(Seq<char>, JsonV)>::empty());
    e.push((k, v));
    assert(entries_view(e@) =~= e0.take(i as int) + seq![(k@, v@)]);
}

/// Stores `v` under `key`.
pub fn obj_set(e: &mut Vec<(String, Json)>, key: &str, v: Json)
    ensures
        entries_view(final(e)@) == obj_insert(entries_view(old(e)@), key@, v@),
{
    obj_insert_exec(e, key.to_owned(), v)
}

/// Removes the entry of `key`, if any.
pub fn obj_remove_exec(e: &mut Vec<(String, Json)>, key: &str)
    ensures
        entries_view(final(e)@) == obj_remove(entries_view(old(e)@), key@),
{
    let mut i: usize = 0;
    let ghost e0 = entries_view(e@);
    assert(e0.skip(0) =~= e0);
    assert(e0.take(0) + obj_remove(e0.skip(0), key@) =~= obj_remove(e0, key@));
    while i < e.len()
        invariant
            i <= e.len(),
            entries_view(e@) == e0,
            e0 == entries_view(old(e)@),
            obj_remove(e0, key@) == e0.take(i as int) + obj_remove(e0.skip(i as int), key@),
        decreases e.len() - i,
    {
        let ghost rest = e0.skip(i as int);
        assert(rest[0] == e0[i as int]);
        if str_eq(e[i].0.as_str(), key) {
            assert(obj_remove(rest, key@) == rest.drop_first());
            e.remove(i);
            assert(entries_view(e@) =~= e0.take(i as int) + rest.drop_first());
            assert(entries_view(e@) == obj_remove(e0, key@));
            return ;
        }
        assert(rest.drop_first() =~= e0.skip(i + 1));
        assert(e0.take(i + 1) =~= e0.take(i as int) + seq![rest[0]]);
        i = i + 1;
    }
    assert(e0.skip(i as int) =~= Seq::<(Seq<char>, JsonV)>::empty());
    assert(e0.take(i as int) =~= e0);
}

// ---------------------------------------------------------------------------
// Laws of objects
// ---------------------------------------------------------------------------

/// Reading a key just stored gives the stored value; other keys read as before.
pub proof fn lemma_obj_insert_get(e: Seq<(Seq<char>, JsonV)>, k: Seq<char>, v: JsonV, k2: Seq<char>)
    ensures
        obj_get(obj_insert(e, k, v), k) == Some(v),
        k2 != k ==> obj_get(obj_insert(e, k, v), k2) == obj_get(e, k2),
    decreases e.len(),
{
    if e.len() == 0 {
        assert(seq![(k, v)].drop_first() =~= e);
    } else if e[0].0 == k {
        let n = e.update(0, (k, v));
        assert(n == obj_insert(e, k, v));
        assert(n.drop_first() =~= e.drop_first());
        assert(n[0].0 == k);
    } else if key_lt(k, e[0].0) {
        let n = seq![(k, v)] + e;
        assert(n == obj_insert(e, k, v));
        assert(n.drop_first() =~= e);
        assert(n[0].0 == k);
    } else {
        lemma_obj_insert_get(e.drop_first(), k, v, k2);
        let n = seq![e[0]] + obj_insert(e.drop_first(), k, v);
        assert(n == obj_insert(e, k, v));
        assert(n.drop_first() =~= obj_insert(e.drop_first(), k, v));
        assert(n[0] == e[0]);
    }
}

/// Removing a key leaves it absent and other keys as they were, when no key
/// occurs twice.
pub proof fn lemma_obj_remove_get(e: Seq<(Seq<char>, JsonV)>, k: Seq<char>, k2: Seq<char>)
    requires
        keys_sorted(e),
    ensures
        obj_get(obj_remove(e, k), k) is None,
        k2 != k ==> obj_get(obj_remove(e, k), k2) == obj_get(e, k2),
    decreases e.len(),
{
    if e.len() == 0 {
    } else {
        let t = e.drop_first();
        assert(keys_sorted(t)) by {
            assert forall|i: int, j: int| 0 <= i < j < t.len() implies key_lt(
                #[trigger] t[i].0,
                #[trigger] t[j].0,
            ) by {
                assert(t[i] == e[i + 1] && t[j] == e[j + 1]);
            }
        }
        lemma_obj_remove_get(t, k, k2);
        if e[0].0 == k {
            lemma_sorted_tail_lacks_head(e);
        } else {
            let n = seq![e[0]] + obj_remove(t, k);
            assert(n.drop_first() =~= obj_remove(t, k));
        }
    }
}

proof fn lemma_key_lt_irrefl(a: Seq<char>)
    ensures
        !key_lt(a, a),
    decreases a.len(),
{
    if a.len() > 0 {
        lemma_key_lt_irrefl(a.drop_first());
    }
}

proof fn lemma_key_lt_trans(a: Seq<char>, b: Seq<char>, c: Seq<char>)
    requires
        key_lt(a, b),
        key_lt(b, c),
    ensures
        key_lt(a, c),
    decreases a.len(),
{
    if a.len() > 0 && b.len() > 0 && c.len() > 0 && a[0] == b[0] && b[0] == c[0] {
        lemma_key_lt_trans(a.drop_first(), b.drop_first(), c.drop_first());
    }
}

proof fn lemma_key_lt_total(a: Seq<char>, b: Seq<char>)
    requires
        a != b,
    ensures
        key_lt(a, b) || key_lt(b, a),
    decreases a.len(),
{
    if a.len() > 0 && b.len() > 0 && a[0] == b[0] {
        if a.drop_first() == b.drop_first() {
            assert(a =~= seq![a[0]] + a.drop_first());
            assert(b =~= seq![b[0]] + b.drop_first());
        }
        lemma_key_lt_total(a.drop_first(), b.drop_first());
    } else if a.len() > 0 && b.len() > 0 {
    } else if a.len() == 0 && b.len() == 0 {
        assert(a =~= b);
    }
}

proof fn lemma_sorted_tail_lacks_head(e: Seq<(Seq<char>, JsonV)>)
    requires
        keys_sorted(e),
        e.len() > 0,
    ensures
        obj_get(e.drop_first(), e[0].0) is None,
{
    lemma_sorted_lacks(e.drop_first(), e[0].0);
    assert forall|i: int| 0 <= i < e.drop_first().len() implies key_lt(
        e[0].0,
        #[trigger] e.drop_first()[i].0,
    ) by {
        assert(e.drop_first()[i] == e[i + 1]);
    }
}

proof fn lemma_sorted_lacks(e: Seq<(Seq<char>, JsonV)>, k: Seq<char>)
    ensures
        (forall|i: int| 0 <= i < e.len() ==> key_lt(k, #[trigger] e[i].0)) ==> obj_get(e, k) is None,
    decreases e.len(),
{
    if e.len() > 0 {
        lemma_sorted_lacks(e.drop_first(), k);
        if forall|i: int| 0 <= i < e.len() ==> key_lt(k, #[trigger] e[i].0) {
            lemma_key_lt_irrefl(k);
            assert(key_lt(k, e[0].0));
            assert forall|i: int| 0 <= i < e.drop_first().len() implies key_lt(
                k,
                #[trigger] e.drop_first()[i].0,
            ) by {
                assert(e.drop_first()[i] == e[i + 1]);
            }
        }
    }
}

/// With keys in increasing order, reading the key of an entry gives that
/// entry's value.
pub proof fn lemma_sorted_get_at(e: Seq<(Seq<char>, JsonV)>, i: int)
    requires
        keys_sorted(e),
        0 <= i < e.len(),
    ensures
        obj_get(e, e[i].0) == Some(e[i].1),
    decreases i,
{
    if i > 0 {
        let t = e.drop_first();
        assert(keys_sorted(t)) by {
            assert forall|a: int, b: int| 0 <= a < b < t.len() implies key_lt(
                #[trigger] t[a].0,
                #[trigger] t[b].0,
            ) by {
                assert(t[a] == e[a + 1] && t[b] == e[b + 1]);
            }
        }
        lemma_key_lt_irrefl(e[0].0);
        assert(key_lt(e[0].0, e[i].0));
        assert(e[0].0 != e[i].0);
        lemma_sorted_get_at(t, i - 1);
        assert(t[i - 1] == e[i]);
    }
}

/// A key that reads some value is the key of an entry holding that value.
pub proof fn lemma_obj_get_index(e: Seq<(Seq<char>, JsonV)>, k: Seq<char>) -> (i: int)
    requires
        obj_get(e, k) is Some,
    ensures
        0 <= i < e.len(),
        e[i].0 == k,
        obj_get(e, k) == Some(e[i].1),
    decreases e.len(),
{
    if e[0].0 == k {
        0
    } else {
        let j = lemma_obj_get_index(e.drop_first(), k);
        assert(e.drop_first()[j] == e[j + 1]);
        j + 1
    }
}

/// Storing a key keeps the entries in strictly increasing key order.
pub proof fn lemma_obj_insert_sorted(e: Seq<(Seq<char>, JsonV)>, k: Seq<char>, v: JsonV)
    requires
        keys_sorted(e),
    ensures
        keys_sorted(obj_insert(e, k, v)),
        forall|i: int|
            0 <= i < obj_insert(e, k, v).len() ==> (#[trigger] obj_insert(e, k, v)[i].0 == k
                || exists|j: int| 0 <= j < e.len() && e[j].0 == obj_insert(e, k, v)[i].0),
    decreases e.len(),
{
    let n = obj_insert(e, k, v);
    if e.len() == 0 {
    } else if e[0].0 == k {
        assert forall|i: int| 0 <= i < n.len() implies (#[trigger] n[i].0 == k || exists|j: int|
            0 <= j < e.len() && e[j].0 == n[i].0) by {
            if i > 0 {
                assert(e[i].0 == n[i].0);
            }
        }
    } else if key_lt(k, e[0].0) {
        assert forall|i: int, j: int| 0 <= i < j < n.len() implies key_lt(
            #[trigger] n[i].0,
            #[trigger] n[j].0,
        ) by {
            if i == 0 {
                if j > 1 {
                    lemma_key_lt_trans(k, e[0].0, e[j - 1].0);
                }
            } else {
                assert(n[i] == e[i - 1] && n[j] == e[j - 1]);
            }
        }
        assert forall|i: int| 0 <= i < n.len() implies (#[trigger] n[i].0 == k || exists|j: int|
            0 <= j < e.len() && e[j].0 == n[i].0) by {
            if i > 0 {
                assert(e[i - 1].0 == n[i].0);
            }
        }
    } else {
        let t = e.drop_first();
        assert(keys_sorted(t)) by {
            assert forall|i: int, j: int| 0 <= i < j < t.len() implies key_lt(
                #[trigger] t[i].0,
                #[trigger] t[j].0,
            ) by {
                assert(t[i] == e[i + 1] && t[j] == e[j + 1]);
            }
        }
        lemma_obj_insert_sorted(t, k, v);
        let m = obj_insert(t, k, v);
        lemma_key_lt_total(k, e[0].0);
        assert(key_lt(e[0].0, k));
        assert forall|i: int| 0 <= i < m.len() implies key_lt(e[0].0, #[trigger] m[i].0) by {
            if m[i].0 != k {
                let j = choose|j: int| 0 <= j < t.len() && t[j].0 == m[i].0;
                assert(t[j] == e[j + 1]);
            }
        }
        assert forall|i: int, j: int| 0 <= i < j < n.len() implies key_lt(
            #[trigger] n[i].0,
            #[trigger] n[j].0,
        ) by {
            if i == 0 {
                assert(n[j] == m[j - 1]);
            } else {
                assert(n[i] == m[i - 1] && n[j] == m[j - 1]);
            }
        }
        assert forall|i: int| 0 <= i < n.len() implies (#[trigger] n[i].0 == k || exists|j: int|
            0 <= j < e.len() && e[j].0 == n[i].0) by {
            if i > 0 {
                assert(n[i] == m[i - 1]);
                if m[i - 1].0 != k {
                    let j = choose|j: int| 0 <= j < t.len() && t[j].0 == m[i - 1].0;
                    assert(t[j] == e[j + 1]);
                }
            }
        }
    }
}

// ---------------------------------------------------------------------------
// Size of a value (a measure for walking nested values)
// ---------------------------------------------------------------------------

/// The number of nodes of a JSON value.
pub open spec fn jsize(j: JsonV) -> nat
    decreases j,
{
    match j {
        JsonV::Array(s) => 1 + seq_size(s),
        JsonV::Object(e) => 1 + entries_size(e),
        _ => 1,
    }
}

/// The number of nodes of the values of a sequence.
pub open spec fn seq_size(s: Seq<JsonV>) -> nat
    decreases s,
{
    if s.len() == 0 {
        0
    } else {
        seq_size(s.drop_last()) + jsize(s.last())
    }
}

/// The number of nodes of the values of object entries.
pub open spec fn entries_size(e: Seq<(Seq<char>, JsonV)>) -> nat
    decreases e,
{
    if e.len() == 0 {
        0
    } else {
        jsize(e[0].1) + entries_size(e.drop_first())
    }
}

pub proof fn lemma_jsize_pos(j: JsonV)
    ensures
        jsize(j) >= 1,
{
}

/// Each element is no larger than the whole sequence.
pub proof fn lemma_seq_size_elem(s: Seq<JsonV>, i: int)
    requires
        0 <= i < s.len(),
    ensures
        jsize(s[i]) <= seq_size(s),
    decreases s.len(),
{
    if i < s.len() - 1 {
        lemma_seq_size_elem(s.drop_last(), i);
    }
}

/// A value found under a key is no larger than all the entries.
pub proof fn lemma_obj_get_size(e: Seq<(Seq<char>, JsonV)>, k: Seq<char>)
    ensures
        obj_get(e, k) matches Some(v) ==> jsize(v) <= entries_size(e),
    decreases e.len(),
{
    if e.len() > 0 && e[0].0 != k {
        lemma_obj_get_size(e.drop_first(), k);
    }
}

/// A member of an object is smaller than the object.
pub proof fn lemma_jget_smaller(j: JsonV, k: Seq<char>)
    ensures
        jget(j, k) matches Some(v) ==> jsize(v) < jsize(j),
{
    match j {
        JsonV::Object(e) => lemma_obj_get_size(e, k),
        _ => {},
    }
}

/// `n`, or the largest `usize` where `n` is larger.
pub open spec fn capped(n: nat) -> nat {
    if n > usize::MAX {
        usize::MAX as nat
    } else {
        n
    }
}

/// `a + b`, capped at the largest `usize`.
pub fn add_capped(a: usize, b: usize) -> (r: usize)
    ensures
        r == capped((a + b) as nat),
{
    if a > usize::MAX - b {
        usize::MAX
    } else {
        a + b
    }
}

pub proof fn lemma_capped_add(x: nat, y: nat)
    ensures
        capped(capped(x) + capped(y)) == capped(x + y),
{
}

proof fn lemma_entries_size_last(e: Seq<(Seq<char>, JsonV)>)
    requires
        e.len() > 0,
    ensures
        entries_size(e) == entries_size(e.drop_last()) + jsize(e.last().1),
    decreases e.len(),
{
    if e.len() > 1 {
        lemma_entries_size_last(e.drop_first());
        assert(e.drop_first().drop_last() =~= e.drop_last().drop_first());
        assert(e.drop_first().last() == e.last());
    } else {
        assert(e.drop_first() =~= Seq::<(Seq<char>, JsonV)>::empty());
        assert(e.drop_last() =~= Seq::<(Seq<char>, JsonV)>::empty());
    }
}

/// The number of nodes of a value, capped at the largest `usize`.
pub fn json_size(j: &Json) -> (r: usize)
    ensures
        r == capped(jsize(j@)),
    decreases j,
{
    match j {
        Json::Array(v) => {
            assert(decreases_to!(*j => *v));
            proof {
                lemma_array_view(*v);
            }
            let n = values_size(v);
            add_capped(1, n)
        },
        Json::Object(e) => {
            assert(decreases_to!(*j => *e));
            proof {
                lemma_object_view(*e);
            }
            let n = entries_size_capped(e);
            add_capped(1, n)
        },
        _ => 1,
    }
}

/// The number of nodes of some values, capped at the largest `usize`.
pub fn values_size(v: &Vec<Json>) -> (r: usize)
    ensures
        r == capped(seq_size(values_view(v@))),
    decreases v,
{
    let ghost vv = values_view(v@);
    let mut acc: usize = 0;
    let mut i: usize = 0;
    assert(vv.take(0) =~= Seq::<JsonV>::empty());
    while i < v.len()
        invariant
            i <= v.len(),
            vv == values_view(v@),
            acc == capped(seq_size(vv.take(i as int))),
        decreases v.len() - i,
    {
        assert(decreases_to!(*v => v[i as int]));
        assert(vv.take(i + 1).drop_last() =~= vv.take(i as int));
        assert(vv.take(i + 1).last() == v@[i as int]@);
        let n = json_size(&v[i]);
        proof {
            lemma_capped_add(seq_size(vv.take(i as int)), jsize(v@[i as int]@));
        }
        acc = add_capped(acc, n);
        i = i + 1;
    }
    assert(vv.take(v.len() as int) =~= vv);
    acc
}

/// The number of nodes of the values of object entries, capped at the
/// largest `usize`.
pub fn entries_size_capped(e: &Vec<(String, Json)>) -> (r: usize)
    ensures
        r == capped(entries_size(entries_view(e@))),
    decreases e,
{
    let ghost ev = entries_view(e@);
    let mut acc: usize = 0;
    let mut i: usize = 0;
    assert(ev.take(0) =~= Seq::<(Seq<char>, JsonV)>::empty());
    while i < e.len()
        invariant
            i <= e.len(),
            ev == entries_view(e@),
            acc == capped(entries_size(ev.take(i as int))),
        decreases e.len() - i,
    {
        assert(decreases_to!(*e => e[i as int]));
        assert(decreases_to!(e[i as int] => e[i as int].1));
        assert(ev.take(i + 1).drop_last() =~= ev.take(i as int));
        assert(ev.take(i + 1).last() == (e@[i as int].0@, e@[i as int].1@));
        proof {
            lemma_entries_size_last(ev.take(i + 1));
        }
        let n = json_size(&e[i].1);
        proof {
            lemma_capped_add(entries_size(ev.take(i as int)), jsize(e@[i as int].1@));
        }
        acc = add_capped(acc, n);
        i = i + 1;
    }
    assert(ev.take(e.len() as int) =~= ev);
    acc
}

/// Whether two values are the same JSON value.
pub fn json_eq(a: &Json, b: &Json) -> (r: bool)
    ensures
        r == (a@ == b@),
    decreases a,
{
    match (a, b) {
        (Json::Null, Json::Null) => true,
        (Json::Bool(x), Json::Bool(y)) => *x == *y,
        (Json::Number(x), Json::Number(y)) => str_eq(x.text.as_str(), y.text.as_str()) && x.is_i64
            == y.is_i64,
        (Json::String(x), Json::String(y)) => str_eq(x.as_str(), y.as_str()),
        (Json::Array(x), Json::Array(y)) => {
            assert(decreases_to!(*a => *x));
            proof {
                lemma_array_view(*x);
                lemma_array_view(*y);
            }
            values_eq(x, y)
        },
        (Json::Object(x), Json::Object(y)) => {
            assert(decreases_to!(*a => *x));
            proof {
                lemma_object_view(*x);
                lemma_object_view(*y);
            }
            entries_eq(x, y)
        },
        _ => false,
    }
}

fn values_eq(x: &Vec<Json>, y: &Vec<Json>) -> (r: bool)
    ensures
        r == (values_view(x@) == values_view(y@)),
    decreases x,
{
    if x.len() != y.len() {
        assert(values_view(x@).len() != values_view(y@).len());
        return false;
    }
    let mut i: usize = 0;
    while i < x.len()
        invariant
            i <= x.len(),
            x.len() == y.len(),
            forall|j: int| 0 <= j < i ==> x@[j]@ == y@[j]@,
        decreases x.len() - i,
    {
        assert(decreases_to!(*x => x[i as int]));
        if !json_eq(&x[i], &y[i]) {
            assert(values_view(x@)[i as int] != values_view(y@)[i as int]);
            return false;
        }
        i = i + 1;
    }
    assert(values_view(x@) =~= values_view(y@));
    true
}

fn entries_eq(x: &Vec<(String, Json)>, y: &Vec<(String, Json)>) -> (r: bool)
    ensures
        r == (entries_view(x@) == entries_view(y@)),
    decreases x,
{
    if x.len() != y.len() {
        assert(entries_view(x@).len() != entries_view(y@).len());
        return false;
    }
    let mut i: usize = 0;
    while i < x.len()
        invariant
            i <= x.len(),
            x.len() == y.len(),
            forall|j: int| 0 <= j < i ==> x@[j].0@ == y@[j].0@ && x@[j].1@ == y@[j].1@,
        decreases x.len() - i,
    {
        assert(decreases_to!(*x => x[i as int]));
        assert(decreases_to!(x[i as int] => x[i as int].1));
        if !str_eq(x[i].0.as_str(), y[i].0.as_str()) || !json_eq(&x[i].1, &y[i].1) {
            assert(entries_view(x@)[i as int] != entries_view(y@)[i as int]);
            return false;
        }
        i = i + 1;
    }
    assert(entries_view(x@) =~= entries_view(y@));
    true
}

} // verus!
