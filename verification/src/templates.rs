//! Named code templates and their rendering.
//!
//! A template holds placeholders `{NAME}`; rendering replaces each variable's
//! placeholder by its value, variable by variable in the order given, and
//! then refuses a result whose first `{...}` still looks like a placeholder
//! (only uppercase letters and underscores between the braces).
use vstd::prelude::*;

use crate::text::{
    append_str, char_is_uppercase, chars_of, find, find_exec, is_uppercase_char, lemma_find_from,
    replace_all, replace_all_exec, str_eq, string_of, subvec,
};

verus! {

/// A set of templates, each under its own name.
pub struct TemplateStore {
    entries: Vec<(String, String)>,
}

/// No name occurs twice.
pub open spec fn names_distinct(e: Seq<(String, String)>) -> bool {
    forall|i: int, j: int| 0 <= i < j < e.len() ==> #[trigger] e[i].0@ != #[trigger] e[j].0@
}

impl TemplateStore {
    #[verifier::type_invariant]
    spec fn inv(self) -> bool {
        names_distinct(self.entries@)
    }

    /// The index of the entry named `k`.
    pub closed spec fn index_of(self, k: Seq<char>) -> int {
        choose|i: int| 0 <= i < self.entries@.len() && self.entries@[i].0@ == k
    }

    /// The templates by name.
    pub closed spec fn contents(self) -> Map<Seq<char>, Seq<char>> {
        Map::new(
            |k: Seq<char>| exists|i: int| 0 <= i < self.entries@.len() && self.entries@[i].0@ == k,
            |k: Seq<char>| self.entries@[self.index_of(k)].1@,
        )
    }
}

impl View for TemplateStore {
    type V = Map<Seq<char>, Seq<char>>;

    open spec fn view(&self) -> Map<Seq<char>, Seq<char>> {
        self.contents()
    }
}

impl TemplateStore {
    /// An empty set of templates.
    pub fn new() -> (r: TemplateStore)
        ensures
            r@ == Map::<Seq<char>, Seq<char>>::empty(),
    {
        let r = TemplateStore { entries: Vec::new() };
        assert(r@ =~= Map::<Seq<char>, Seq<char>>::empty());
        r
    }

    fn find_index(&self, name: &str) -> (r: Option<usize>)
        ensures
            match r {
                Some(i) => i < self.entries@.len() && self.entries@[i as int].0@ == name@,
                None => !self@.dom().contains(name@),
            },
    {
        let mut i: usize = 0;
        while i < self.entries.len()
            invariant
                i <= self.entries.len(),
                forall|j: int| 0 <= j < i ==> self.entries@[j].0@ != name@,
            decreases self.entries.len() - i,
        {
            if str_eq(self.entries[i].0.as_str(), name) {
                return Some(i);
            }
            i = i + 1;
        }
        None
    }

    proof fn lemma_index(&self, i: int)
        requires
            0 <= i < self.entries@.len(),
            names_distinct(self.entries@),
        ensures
            self@.dom().contains(self.entries@[i].0@),
            self@[self.entries@[i].0@] == self.entries@[i].1@,
    {
        let k = self.entries@[i].0@;
        assert(exists|j: int| 0 <= j < self.entries@.len() && self.entries@[j].0@ == k);
        let j = self.index_of(k);
        assert(j == i);
    }

    /// Stores `content` under `name`, replacing a template of that name.
    pub fn insert(&mut self, name: String, content: String)
        ensures
            final(self)@ == old(self)@.insert(name@, content@),
    {
        proof {
            use_type_invariant(&*self);
        }
        let ghost old_map = self@;
        let ghost old_entries = self.entries@;
        let ghost k = name@;
        let ghost c = content@;
        match self.find_index(name.as_str()) {
            Some(i) => {
                let mut entries: Vec<(String, String)> = Vec::new();
                std::mem::swap(&mut entries, &mut self.entries);
                entries.set(i, (name, content));
                assert(names_distinct(entries@)) by {
                    assert forall|a: int, b: int| 0 <= a < b < entries@.len() implies #[trigger] entries@[a].0@
                        != #[trigger] entries@[b].0@ by {
                        if a != i as int && b != i as int {
                            assert(entries@[a] == old_entries[a] && entries@[b] == old_entries[b]);
                        } else if a == i as int {
                            assert(entries@[b] == old_entries[b]);
                            assert(old_entries[a].0@ == k);
                        } else {
                            assert(entries@[a] == old_entries[a]);
                            assert(old_entries[b].0@ == k);
                        }
                    }
                }
                self.entries = entries;
                proof {
                    self.lemma_index(i as int);
                    assert forall|key: Seq<char>| #[trigger] self@.dom().contains(key) == old_map.insert(k, c).dom().contains(key)
                        by {
                        if exists|j: int| 0 <= j < self.entries@.len() && self.entries@[j].0@ == key {
                            let j = choose|j: int| 0 <= j < self.entries@.len() && self.entries@[j].0@ == key;
                            if j != i as int {
                                assert(old_entries[j] == self.entries@[j]);
                                assert(old_map.dom().contains(key));
                            }
                        }
                        if old_map.dom().contains(key) && key != k {
                            let j = choose|j: int| 0 <= j < old_entries.len() && old_entries[j].0@ == key;
                            assert(self.entries@[j] == old_entries[j]);
                        }
                    }
                    assert forall|key: Seq<char>| #[trigger] self@.dom().contains(key) implies self@[key]
                        == old_map.insert(k, c)[key] by {
                        let j = choose|j: int| 0 <= j < self.entries@.len() && self.entries@[j].0@ == key;
                        self.lemma_index(j);
                        if key != k {
                            assert(j != i as int);
                            assert(old_entries[j] == self.entries@[j]);
                            assert(old_map.dom().contains(key));
                            let jo = choose|jo: int| 0 <= jo < old_entries.len() && old_entries[jo].0@ == key;
                            assert(jo == j);
                        }
                    }
                    assert(self@ =~= old_map.insert(k, c));
                }
            },
            None => {
                let mut entries: Vec<(String, String)> = Vec::new();
                std::mem::swap(&mut entries, &mut self.entries);
                entries.push((name, content));
                assert(names_distinct(entries@)) by {
                    assert forall|a: int, b: int| 0 <= a < b < entries@.len() implies #[trigger] entries@[a].0@
                        != #[trigger] entries@[b].0@ by {
                        if b == old_entries.len() {
                            assert(entries@[a] == old_entries[a]);
                            if old_entries[a].0@ == k {
                                assert(old_map.dom().contains(k));
                            }
                        } else {
                            assert(entries@[a] == old_entries[a] && entries@[b] == old_entries[b]);
                        }
                    }
                }
                self.entries = entries;
                proof {
                    let n = old_entries.len() as int;
                    self.lemma_index(n);
                    assert forall|key: Seq<char>| #[trigger] self@.dom().contains(key) == old_map.insert(k, c).dom().contains(key)
                        by {
                        if exists|j: int| 0 <= j < self.entries@.len() && self.entries@[j].0@ == key {
                            let j = choose|j: int| 0 <= j < self.entries@.len() && self.entries@[j].0@ == key;
                            if j != n {
                                assert(old_entries[j] == self.entries@[j]);
                                assert(old_map.dom().contains(key));
                            }
                        }
                        if old_map.dom().contains(key) && key != k {
                            let j = choose|j: int| 0 <= j < old_entries.len() && old_entries[j].0@ == key;
                            assert(self.entries@[j] == old_entries[j]);
                        }
                    }
                    assert forall|key: Seq<char>| #[trigger] self@.dom().contains(key) implies self@[key]
                        == old_map.insert(k, c)[key] by {
                        let j = choose|j: int| 0 <= j < self.entries@.len() && self.entries@[j].0@ == key;
                        self.lemma_index(j);
                        if key != k {
                            assert(j != n);
                            assert(old_entries[j] == self.entries@[j]);
                            assert(old_map.dom().contains(key));
                            let jo = choose|jo: int| 0 <= jo < old_entries.len() && old_entries[jo].0@ == key;
                            assert(jo == j);
                        }
                    }
                    assert(self@ =~= old_map.insert(k, c));
                }
            },
        }
    }

    /// The template named `name`.
    pub fn get(&self, name: &str) -> (r: Option<&String>)
        ensures
            match r {
                Some(s) => self@.dom().contains(name@) && s@ == self@[name@],
                None => !self@.dom().contains(name@),
            },
    {
        proof {
            use_type_invariant(self);
        }
        match self.find_index(name) {
            Some(i) => {
                proof {
                    self.lemma_index(i as int);
                }
                Some(&self.entries[i].1)
            },
            None => None,
        }
    }

    /// Whether a template named `name` is stored.
    pub fn contains(&self, name: &str) -> (r: bool)
        ensures
            r == self@.dom().contains(name@),
    {
        self.get(name).is_some()
    }

    /// The names of the stored templates, each once.
    pub fn names(&self) -> (r: Vec<&String>)
        ensures
            r@.len() == self@.dom().len(),
            forall|i: int| 0 <= i < r@.len() ==> self@.dom().contains(#[trigger] r@[i]@),
            forall|k: Seq<char>| #[trigger] self@.dom().contains(k) ==> exists|i: int|
                0 <= i < r@.len() && r@[i]@ == k,
            forall|i: int, j: int| 0 <= i < j < r@.len() ==> #[trigger] r@[i]@ != #[trigger] r@[j]@,
    {
        proof {
            use_type_invariant(self);
        }
        let mut out: Vec<&String> = Vec::new();
        let mut i: usize = 0;
        while i < self.entries.len()
            invariant
                i <= self.entries.len(),
                names_distinct(self.entries@),
                out@.len() == i,
                forall|j: int| 0 <= j < i ==> #[trigger] out@[j]@ == self.entries@[j].0@,
            decreases self.entries.len() - i,
        {
            out.push(&self.entries[i].0);
            i = i + 1;
        }
        proof {
            let keys = Seq::new(out@.len(), |j: int| out@[j]@);
            assert(keys.no_duplicates()) by {
                assert forall|a: int, b: int| 0 <= a < keys.len() && 0 <= b < keys.len() && a != b implies keys[a]
                    != keys[b] by {
                    if a < b {
                        assert(self.entries@[a].0@ != self.entries@[b].0@);
                    } else {
                        assert(self.entries@[b].0@ != self.entries@[a].0@);
                    }
                }
            }
            keys.unique_seq_to_set();
            assert(keys.to_set() =~= self@.dom()) by {
                assert forall|k: Seq<char>| keys.to_set().contains(k) == self@.dom().contains(k) by {
                    if self@.dom().contains(k) {
                        let j = choose|j: int| 0 <= j < self.entries@.len() && self.entries@[j].0@ == k;
                        assert(keys[j] == k);
                    }
                    if keys.to_set().contains(k) {
                        let j = choose|j: int| 0 <= j < keys.len() && keys[j] == k;
                        assert(self.entries@[j].0@ == k);
                    }
                }
            }
            assert forall|k: Seq<char>| #[trigger] self@.dom().contains(k) implies exists|j: int|
                0 <= j < out@.len() && out@[j]@ == k by {
                let j = choose|j: int| 0 <= j < self.entries@.len() && self.entries@[j].0@ == k;
                assert(out@[j]@ == k);
            }
            assert forall|a: int, b: int| 0 <= a < b < out@.len() implies #[trigger] out@[a]@
                != #[trigger] out@[b]@ by {
                assert(keys[a] != keys[b]);
            }
        }
        out
    }
}

// ---------------------------------------------------------------------------
// Rendering
// ---------------------------------------------------------------------------

/// The placeholder of a variable: its name between braces.
pub open spec fn placeholder(k: Seq<char>) -> Seq<char> {
    seq!['{'] + k + seq!['}']
}

/// The template after each variable's placeholder is replaced by its value,
/// in order.
pub open spec fn apply_vars(t: Seq<char>, vars: Seq<(Seq<char>, Seq<char>)>) -> Seq<char>
    decreases vars.len(),
{
    if vars.len() == 0 {
        t
    } else {
        replace_all(apply_vars(t, vars.drop_last()), placeholder(vars.last().0), vars.last().1)
    }
}

/// Every character is uppercase or `_`.
pub open spec fn all_upper_or_underscore(s: Seq<char>) -> bool {
    forall|i: int| 0 <= i < s.len() ==> (#[trigger] is_uppercase_char(s[i]) || s[i] == '_')
}

/// The first `{...}` of `r` (from the first `{` to the first `}` after it),
/// when what stands between the braces is only uppercase letters and `_`.
pub open spec fn unresolved_placeholder(r: Seq<char>) -> Option<Seq<char>> {
    match find(r, seq!['{']) {
        None => None,
        Some(start) => match find(r.subrange(start, r.len() as int), seq!['}']) {
            None => None,
            Some(end) => {
                let ph = r.subrange(start, start + end + 1);
                if all_upper_or_underscore(ph.subrange(1, ph.len() - 1)) {
                    Some(ph)
                } else {
                    None
                }
            },
        },
    }
}

/// The variable views of a list of variables.
pub open spec fn vars_view(v: Seq<(String, String)>) -> Seq<(Seq<char>, Seq<char>)> {
    Seq::new(v.len(), |i: int| (v[i].0@, v[i].1@))
}

/// What rendering a template gives: the text, or the placeholder that was
/// left unresolved.
pub open spec fn render_spec(t: Seq<char>, vars: Seq<(Seq<char>, Seq<char>)>) -> Result<
    Seq<char>,
    Seq<char>,
> {
    let r = apply_vars(t, vars);
    match unresolved_placeholder(r) {
        Some(ph) => Err(ph),
        None => Ok(r),
    }
}

fn all_upper_or_underscore_exec(s: &Vec<char>) -> (r: bool)
    ensures
        r == all_upper_or_underscore(s@),
{
    let mut i: usize = 0;
    while i < s.len()
        invariant
            i <= s.len(),
            forall|j: int| 0 <= j < i ==> (#[trigger] is_uppercase_char(s@[j]) || s@[j] == '_'),
        decreases s.len() - i,
    {
        if !(char_is_uppercase(s[i]) || s[i] == '_') {
            return false;
        }
        i = i + 1;
    }
    true
}

/// Renders `template` with the variables in order: each `{KEY}` becomes its
/// value. Fails with the placeholder when the result's first `{...}` holds
/// only uppercase letters and underscores.
pub fn render_template(template: &String, variables: &Vec<(String, String)>) -> (r: Result<
    String,
    String,
>)
    ensures
        match render_spec(template@, vars_view(variables@)) {
            Ok(t) => r matches Ok(s) && s@ == t,
            Err(ph) => r matches Err(s) && s@ == ph,
        },
{
    let ghost vv = vars_view(variables@);
    let mut result = chars_of(template.as_str());
    let mut i: usize = 0;
    assert(vv.take(0) =~= Seq::<(Seq<char>, Seq<char>)>::empty());
    while i < variables.len()
        invariant
            i <= variables.len(),
            vv == vars_view(variables@),
            result@ == apply_vars(template@, vv.take(i as int)),
        decreases variables.len() - i,
    {
        assert(vv.take(i + 1).drop_last() =~= vv.take(i as int));
        assert(vv.take(i + 1).last() == vv[i as int]);
        let mut ph: Vec<char> = Vec::new();
        ph.push('{');
        append_str(&mut ph, variables[i].0.as_str());
        ph.push('}');
        assert(ph@ =~= placeholder(variables@[i as int].0@));
        let value = chars_of(variables[i].1.as_str());
        result = replace_all_exec(&result, &ph, &value);
        i = i + 1;
    }
    assert(vv.take(variables.len() as int) =~= vv);
    let mut open: Vec<char> = Vec::new();
    open.push('{');
    assert(open@ =~= seq!['{']);
    let mut close: Vec<char> = Vec::new();
    close.push('}');
    assert(close@ =~= seq!['}']);
    proof {
        lemma_find_from(result@, seq!['{'], 0);
    }
    match find_exec(&result, &open) {
        Some(start) => {
            let after = subvec(&result, start, result.len());
            proof {
                lemma_find_from(after@, seq!['}'], 0);
            }
            match find_exec(&after, &close) {
                Some(end) => {
                    assert(result@.subrange(start as int, start + 1)[0] == result@[start as int]);
                    assert(after@[0] == '{');
                    assert(after@.subrange(end as int, end + 1)[0] == after@[end as int]);
                    assert(end >= 1);
                    let ph = subvec(&result, start, start + end + 1);
                    let inner = subvec(&ph, 1, ph.len() - 1);
                    if all_upper_or_underscore_exec(&inner) {
                        return Err(string_of(&ph));
                    }
                },
                None => {},
            }
        },
        None => {},
    }
    Ok(string_of(&result))
}

// ---------------------------------------------------------------------------
// Laws
// ---------------------------------------------------------------------------

proof fn lemma_replace_without_open_brace(s: Seq<char>, pat: Seq<char>, rep: Seq<char>)
    requires
        pat.len() > 0,
        pat[0] == '{',
        !s.contains('{'),
    ensures
        replace_all(s, pat, rep) == s,
    decreases s.len(),
{
    if s.len() >= pat.len() {
        assert(s.subrange(0, pat.len() as int)[0] == s[0]);
        assert(s[0] != '{');
        let t = s.subrange(1, s.len() as int);
        assert(!t.contains('{')) by {
            if t.contains('{') {
                let j = choose|j: int| 0 <= j < t.len() && t[j] == '{';
                assert(s[j + 1] == '{');
            }
        }
        lemma_replace_without_open_brace(t, pat, rep);
        assert(seq![s[0]] + t =~= s);
    }
}

proof fn lemma_apply_vars_without_open_brace(t: Seq<char>, vars: Seq<(Seq<char>, Seq<char>)>)
    requires
        !t.contains('{'),
    ensures
        apply_vars(t, vars) == t,
    decreases vars.len(),
{
    if vars.len() > 0 {
        lemma_apply_vars_without_open_brace(t, vars.drop_last());
        let k = vars.last().0;
        assert(placeholder(k)[0] == '{');
        lemma_replace_without_open_brace(t, placeholder(k), vars.last().1);
    }
}

/// A template without `{` renders to itself, whatever the variables: it has
/// no placeholder to replace and none left unresolved.
pub proof fn lemma_render_without_braces(t: Seq<char>, vars: Seq<(Seq<char>, Seq<char>)>)
    requires
        !t.contains('{'),
    ensures
        render_spec(t, vars) == Ok::<Seq<char>, Seq<char>>(t),
{
    lemma_apply_vars_without_open_brace(t, vars);
    crate::text::lemma_find_from(t, seq!['{'], 0);
    if find(t, seq!['{']) is Some {
        let k = find(t, seq!['{']).unwrap();
        assert(t.subrange(k, k + 1)[0] == t[k]);
    }
}

} // verus!
