//! Text transformations used when turning a Postman collection into an
//! OpenAPI document: request names, identifiers, URL paths and raw bodies.
use vstd::prelude::*;

use crate::text::{
    append_chars, append_str, chars_of, find, find_exec, lemma_find_from, starts_with,
    starts_with_exec, string_of, subvec, trim_start_char, trim_start_char_exec,
};
use crate::openapi::strings_view;
use crate::{snake_case, to_snake_case};

verus! {

pub open spec fn open2() -> Seq<char> {
    seq!['{', '{']
}

pub open spec fn close2() -> Seq<char> {
    seq!['}', '}']
}

pub proof fn lemma_find_bounds(h: Seq<char>, n: Seq<char>)
    ensures
        find(h, n) matches Some(i) ==> 0 <= i && i + n.len() <= h.len() && h.subrange(
            i,
            i + n.len(),
        ) == n,
{
    lemma_find_from(h, n, 0);
}

/// `{{name}}` becomes `{name}` for a non-empty `name`; a `{{` with no `}}` after
/// it, or directly followed by `}}`, is kept.
pub open spec fn normalize_braces(s: Seq<char>) -> Seq<char>
    decreases s.len(),
{
    match find(s, open2()) {
        None => s,
        Some(i) => {
            proof {
                lemma_find_bounds(s, open2());
            }
            let r = s.subrange(i + 2, s.len() as int);
            match find(r, close2()) {
                None => s.subrange(0, i) + open2() + r,
                Some(e) => {
                    proof {
                        lemma_find_bounds(r, close2());
                    }
                    if e > 0 {
                        s.subrange(0, i) + seq!['{'] + r.subrange(0, e) + seq!['}']
                            + normalize_braces(r.subrange(e + 2, r.len() as int))
                    } else {
                        s.subrange(0, i) + open2() + normalize_braces(r)
                    }
                },
            }
        },
    }
}

fn open2_exec() -> (r: Vec<char>)
    ensures
        r@ == open2(),
{
    let mut v: Vec<char> = Vec::new();
    v.push('{');
    v.push('{');
    assert(v@ =~= open2());
    v
}

fn close2_exec() -> (r: Vec<char>)
    ensures
        r@ == close2(),
{
    let mut v: Vec<char> = Vec::new();
    v.push('}');
    v.push('}');
    assert(v@ =~= close2());
    v
}

/// Turns Postman `{{var}}` path templates into connector `{var}` templates.
pub fn normalize_postman_braces_chars(s: &Vec<char>) -> (r: Vec<char>)
    ensures
        r@ == normalize_braces(s@),
{
    let open = open2_exec();
    let close = close2_exec();
    let mut out: Vec<char> = Vec::new();
    let mut rest: Vec<char> = subvec(s, 0, s.len());
    assert(s@.subrange(0, s.len() as int) =~= s@);
    let mut done = false;
    while !done
        invariant
            open@ == open2(),
            close@ == close2(),
            done ==> out@ + rest@ == normalize_braces(s@),
            !done ==> out@ + normalize_braces(rest@) == normalize_braces(s@),
        decreases rest.len() + (if done {
            0int
        } else {
            1int
        }),
    {
        let ghost r0 = rest@;
        proof {
            lemma_find_bounds(r0, open2());
        }
        match find_exec(&rest, &open) {
            None => {
                done = true;
            },
            Some(start) => {
                let head = subvec(&rest, 0, start);
                let after = subvec(&rest, start + 2, rest.len());
                proof {
                    lemma_find_bounds(after@, close2());
                }
                match find_exec(&after, &close) {
                    None => {
                        let ghost o0 = out@;
                        append_chars(&mut out, &head);
                        append_chars(&mut out, &open);
                        rest = after;
                        done = true;
                        assert(out@ + rest@ =~= o0 + (head@ + open2() + after@));
                    },
                    Some(end) => {
                        if end > 0 {
                            let name = subvec(&after, 0, end);
                            let tail = subvec(&after, end + 2, after.len());
                            let ghost o0 = out@;
                            append_chars(&mut out, &head);
                            out.push('{');
                            append_chars(&mut out, &name);
                            out.push('}');
                            rest = tail;
                            assert(out@ + normalize_braces(rest@) =~= o0 + (head@ + seq!['{']
                                + name@ + seq!['}'] + normalize_braces(tail@)));
                        } else {
                            let ghost o0 = out@;
                            append_chars(&mut out, &head);
                            append_chars(&mut out, &open);
                            rest = after;
                            assert(out@ + normalize_braces(rest@) =~= o0 + (head@ + open2()
                                + normalize_braces(after@)));
                        }
                    },
                }
            },
        }
    }
    append_chars(&mut out, &rest);
    out
}

/// `str::split(c).next()`: the text before the first `c`.
pub open spec fn before_first(s: Seq<char>, c: char) -> Seq<char> {
    match find(s, seq![c]) {
        Some(i) => s.subrange(0, i),
        None => s,
    }
}

pub open spec fn scheme_sep() -> Seq<char> {
    seq![':', '/', '/']
}

/// The path of a raw Postman URL: fragment and query removed, scheme and host
/// removed from an absolute URL (a bare host gives `/`), a leading `/` added to
/// a relative path, then `{{var}}` turned into `{var}`.
pub open spec fn raw_url_path(raw: Seq<char>) -> Seq<char> {
    let no_frag = before_first(raw, '#');
    let base = before_first(no_frag, '?');
    let path_part = match find(base, scheme_sep()) {
        Some(idx) => {
            let after = base.subrange(idx + 3, base.len() as int);
            match find(after, seq!['/']) {
                Some(sl) => after.subrange(sl, after.len() as int),
                None => seq!['/'],
            }
        },
        None => if starts_with(base, seq!['/']) {
            base
        } else {
            seq!['/'] + trim_start_char(base, '/')
        },
    };
    normalize_braces(path_part)
}

fn before_first_exec(s: &Vec<char>, c: char) -> (r: Vec<char>)
    ensures
        r@ == before_first(s@, c),
{
    let mut pat: Vec<char> = Vec::new();
    pat.push(c);
    assert(pat@ =~= seq![c]);
    proof {
        lemma_find_bounds(s@, seq![c]);
    }
    match find_exec(s, &pat) {
        Some(i) => subvec(s, 0, i),
        None => subvec(s, 0, s.len()),
    }
}

/// Strip query string and fragment, take the path from an absolute URL or use
/// the text as a relative path.
pub fn path_from_raw_url(raw: &str) -> (r: String)
    ensures
        r@ == raw_url_path(raw@),
{
    let raw_chars = chars_of(raw);
    let no_frag = before_first_exec(&raw_chars, '#');
    let base = before_first_exec(&no_frag, '?');
    let mut sep: Vec<char> = Vec::new();
    sep.push(':');
    sep.push('/');
    sep.push('/');
    assert(sep@ =~= scheme_sep());
    proof {
        lemma_find_bounds(base@, scheme_sep());
    }
    let path_part = match find_exec(&base, &sep) {
        Some(idx) => {
            assert(scheme_sep().len() == 3);
            let blen = base.len();
            assert(idx + 3 <= blen);
            let after = subvec(&base, idx + 3, blen);
            let mut slash: Vec<char> = Vec::new();
            slash.push('/');
            assert(slash@ =~= seq!['/']);
            proof {
                lemma_find_bounds(after@, seq!['/']);
            }
            match find_exec(&after, &slash) {
                Some(sl) => subvec(&after, sl, after.len()),
                None => slash,
            }
        },
        None => {
            let mut slash: Vec<char> = Vec::new();
            slash.push('/');
            assert(slash@ =~= seq!['/']);
            if starts_with_exec(&base, &slash) {
                base
            } else {
                let trimmed = trim_start_char_exec(&base, '/');
                append_chars(&mut slash, &trimmed);
                slash
            }
        },
    };
    let normalized = normalize_postman_braces_chars(&path_part);
    string_of(&normalized)
}

/// Turns Postman `{{var}}` path templates into connector `{var}` templates.
pub fn normalize_postman_braces(s: &str) -> (r: String)
    ensures
        r@ == normalize_braces(s@),
{
    let v = chars_of(s);
    let n = normalize_postman_braces_chars(&v);
    string_of(&n)
}

pub open spec fn null_chars() -> Seq<char> {
    seq!['n', 'u', 'l', 'l']
}

/// The text after replacing, outside JSON string literals, each `{{ ... }}`
/// (closed by the next `}}`) with `null`. `in_string` and `escape` say whether
/// the text starts inside a string literal and right after a backslash there.
pub open spec fn nullify_template_vars(s: Seq<char>, in_string: bool, escape: bool) -> Seq<char>
    decreases s.len(),
{
    if s.len() == 0 {
        Seq::empty()
    } else if in_string {
        let c = s[0];
        if escape {
            seq![c] + nullify_template_vars(s.drop_first(), true, false)
        } else if c == '\\' {
            seq![c] + nullify_template_vars(s.drop_first(), true, true)
        } else if c == '"' {
            seq![c] + nullify_template_vars(s.drop_first(), false, false)
        } else {
            seq![c] + nullify_template_vars(s.drop_first(), true, false)
        }
    } else if s[0] == '"' {
        seq!['"'] + nullify_template_vars(s.drop_first(), true, escape)
    } else if s.len() >= 2 && s[0] == '{' && s[1] == '{' && find(
        s.subrange(2, s.len() as int),
        close2(),
    ) is Some {
        let e = find(s.subrange(2, s.len() as int), close2())->Some_0;
        proof {
            lemma_find_bounds(s.subrange(2, s.len() as int), close2());
        }
        null_chars() + nullify_template_vars(s.subrange(e + 4, s.len() as int), false, escape)
    } else {
        seq![s[0]] + nullify_template_vars(s.drop_first(), false, escape)
    }
}

/// Replace `{{ ... }}` with JSON `null` when not inside a string, so template
/// bodies parse.
pub fn replace_postman_template_vars_with_null_outside_strings(input: &str) -> (r: String)
    ensures
        r@ == nullify_template_vars(input@, false, false),
{
    let s = chars_of(input);
    let close = close2_exec();
    let mut out: Vec<char> = Vec::new();
    let mut idx: usize = 0;
    let mut in_string = false;
    let mut escape = false;
    assert(s@.subrange(0, s.len() as int) =~= s@);
    while idx < s.len()
        invariant
            idx <= s.len(),
            close@ == close2(),
            out@ + nullify_template_vars(s@.subrange(idx as int, s.len() as int), in_string, escape)
                == nullify_template_vars(s@, false, false),
        decreases s.len() - idx,
    {
        let ghost rest = s@.subrange(idx as int, s.len() as int);
        let ghost o0 = out@;
        let ghost e0 = escape;
        assert(rest.drop_first() =~= s@.subrange(idx + 1, s.len() as int));
        let ch = s[idx];
        if in_string {
            out.push(ch);
            if escape {
                escape = false;
            } else if ch == '\\' {
                escape = true;
            } else if ch == '"' {
                in_string = false;
            }
            idx = idx + 1;
            assert(out@ + nullify_template_vars(s@.subrange(idx as int, s.len() as int), in_string, escape)
                =~= o0 + nullify_template_vars(rest, true, e0));
        } else if ch == '"' {
            in_string = true;
            out.push(ch);
            idx = idx + 1;
            assert(out@ + nullify_template_vars(s@.subrange(idx as int, s.len() as int), in_string, escape)
                =~= o0 + nullify_template_vars(rest, false, escape));
        } else {
            let mut replaced = false;
            if idx + 1 < s.len() && ch == '{' && s[idx + 1] == '{' {
                let after = subvec(&s, idx + 2, s.len());
                assert(after@ =~= rest.subrange(2, rest.len() as int));
                proof {
                    lemma_find_bounds(after@, close2());
                }
                match find_exec(&after, &close) {
                    Some(rel_end) => {
                        out.push('n');
                        out.push('u');
                        out.push('l');
                        out.push('l');
                        idx = idx + 2 + rel_end + 2;
                        replaced = true;
                        assert(rest.subrange(rel_end + 4, rest.len() as int) =~= s@.subrange(
                            idx as int,
                            s.len() as int,
                        ));
                        assert(out@ + nullify_template_vars(s@.subrange(idx as int, s.len() as int), in_string, escape)
                            =~= o0 + nullify_template_vars(rest, false, escape));
                    },
                    None => {},
                }
            }
            if !replaced {
                out.push(ch);
                idx = idx + 1;
                assert(out@ + nullify_template_vars(s@.subrange(idx as int, s.len() as int), in_string, escape)
                    =~= o0 + nullify_template_vars(rest, false, escape));
            }
        }
    }
    assert(s@.subrange(s.len() as int, s.len() as int) =~= Seq::<char>::empty());
    assert(out@ + Seq::<char>::empty() =~= out@);
    string_of(&out)
}

/// The pieces joined with `sep` between neighbours (`[T]::join`).
pub open spec fn join_with(parts: Seq<Seq<char>>, sep: Seq<char>) -> Seq<char>
    decreases parts.len(),
{
    if parts.len() == 0 {
        Seq::empty()
    } else if parts.len() == 1 {
        parts[0]
    } else {
        join_with(parts.drop_last(), sep) + sep + parts.last()
    }
}

pub open spec fn display_sep() -> Seq<char> {
    seq![' ', '/', ' ']
}

/// The display name of a request: its folders and its own name, joined by ` / `.
pub fn join_display_path(folders: &Vec<String>, name: &str) -> (r: String)
    ensures
        r@ == join_with(strings_view(folders@).push(name@), display_sep()),
{
    let mut out: Vec<char> = Vec::new();
    let ghost parts = strings_view(folders@).push(name@);
    let mut sep: Vec<char> = Vec::new();
    sep.push(' ');
    sep.push('/');
    sep.push(' ');
    assert(sep@ =~= display_sep());
    let mut i: usize = 0;
    assert(parts.take(0) =~= Seq::<Seq<char>>::empty());
    while i < folders.len()
        invariant
            i <= folders.len(),
            sep@ == display_sep(),
            parts == strings_view(folders@).push(name@),
            out@ == join_with(parts.take(i as int), display_sep()),
        decreases folders.len() - i,
    {
        assert(parts.take(i + 1).drop_last() =~= parts.take(i as int));
        assert(parts[i as int] == folders@[i as int]@);
        if i > 0 {
            append_chars(&mut out, &sep);
        }
        append_str(&mut out, folders[i].as_str());
        i = i + 1;
    }
    assert(parts.take(i + 1).drop_last() =~= parts.take(i as int));
    assert(parts.take(i + 1) =~= parts);
    if i > 0 {
        append_chars(&mut out, &sep);
    }
    append_str(&mut out, name);
    string_of(&out)
}

pub open spec fn digit_char(d: int) -> char {
    seq!['0', '1', '2', '3', '4', '5', '6', '7', '8', '9'][d]
}

/// The decimal digits of `n` (as `u32::to_string` writes them).
pub open spec fn decimal(n: nat) -> Seq<char>
    decreases n,
{
    if n < 10 {
        seq![digit_char(n as int)]
    } else {
        decimal(n / 10) + seq![digit_char((n % 10) as int)]
    }
}

fn digit_exec(d: u128) -> (c: char)
    requires
        d < 10,
    ensures
        c == digit_char(d as int),
{
    if d == 0 {
        '0'
    } else if d == 1 {
        '1'
    } else if d == 2 {
        '2'
    } else if d == 3 {
        '3'
    } else if d == 4 {
        '4'
    } else if d == 5 {
        '5'
    } else if d == 6 {
        '6'
    } else if d == 7 {
        '7'
    } else if d == 8 {
        '8'
    } else {
        '9'
    }
}

/// The decimal digits of `n`.
pub fn decimal_exec(n: u128) -> (r: Vec<char>)
    ensures
        r@ == decimal(n as nat),
    decreases n,
{
    if n < 10 {
        let mut v: Vec<char> = Vec::new();
        v.push(digit_exec(n));
        assert(v@ =~= decimal(n as nat));
        v
    } else {
        let mut v = decimal_exec(n / 10);
        v.push(digit_exec(n % 10));
        v
    }
}

proof fn lemma_decimal_len(n: nat)
    ensures
        decimal(n).len() >= 1,
        n >= 10 ==> decimal(n).len() >= 2,
    decreases n,
{
    if n >= 10 {
        lemma_decimal_len(n / 10);
    }
}

/// Different numbers have different decimal forms.
pub proof fn lemma_decimal_injective(a: nat, b: nat)
    requires
        decimal(a) == decimal(b),
    ensures
        a == b,
    decreases a,
{
    lemma_decimal_len(a);
    lemma_decimal_len(b);
    let ds = seq!['0', '1', '2', '3', '4', '5', '6', '7', '8', '9'];
    if a < 10 && b < 10 {
        assert(decimal(a)[0] == ds[a as int]);
        assert(decimal(b)[0] == ds[b as int]);
    } else if a < 10 {
    } else if b < 10 {
    } else {
        let da = decimal(a);
        let db = decimal(b);
        assert(da.last() == ds[(a % 10) as int]);
        assert(db.last() == ds[(b % 10) as int]);
        assert(da.drop_last() =~= decimal(a / 10));
        assert(db.drop_last() =~= decimal(b / 10));
        lemma_decimal_injective(a / 10, b / 10);
    }
}

/// The base of a request's identifier: the snake-case form of its display
/// name, or `request` when that is empty.
pub open spec fn id_base(display: Seq<char>) -> Seq<char> {
    if snake_case(display).len() == 0 {
        seq!['r', 'e', 'q', 'u', 'e', 's', 't']
    } else {
        snake_case(display)
    }
}

/// `base` followed by `_` and the number `n`.
pub open spec fn numbered(base: Seq<char>, n: nat) -> Seq<char> {
    base + seq!['_'] + decimal(n)
}

/// The first of `base_n, base_{n+1}, ...` not among `used` (searched no
/// further than the number of used identifiers allows).
pub open spec fn next_free(base: Seq<char>, used: Seq<Seq<char>>, n: nat) -> Seq<char>
    decreases used.len() + 2 - n,
{
    if n > used.len() + 1 {
        numbered(base, n)
    } else if !used.contains(numbered(base, n)) {
        numbered(base, n)
    } else {
        next_free(base, used, n + 1)
    }
}

/// The identifier given to a request with base `base` when `used` are taken:
/// the base itself, else the first free `base_2`, `base_3`, ...
pub open spec fn unique_id(base: Seq<char>, used: Seq<Seq<char>>) -> Seq<char> {
    if !used.contains(base) {
        base
    } else {
        next_free(base, used, 2)
    }
}

/// Whether `s` is among the strings of `v`.
pub fn strings_contain(v: &Vec<String>, s: &Vec<char>) -> (r: bool)
    ensures
        r == strings_view(v@).contains(s@),
{
    let mut i: usize = 0;
    while i < v.len()
        invariant
            i <= v.len(),
            forall|j: int| 0 <= j < i ==> v@[j]@ != s@,
        decreases v.len() - i,
    {
        let c = chars_of(v[i].as_str());
        if chars_eq(&c, s) {
            proof {
                assert(strings_view(v@)[i as int] == s@);
            }
            return true;
        }
        i = i + 1;
    }
    proof {
        if strings_view(v@).contains(s@) {
            let j = choose|j: int| 0 <= j < strings_view(v@).len() && strings_view(v@)[j] == s@;
            assert(v@[j]@ == s@);
        }
    }
    false
}

/// Whether two character vectors are equal.
pub fn chars_eq(a: &Vec<char>, b: &Vec<char>) -> (r: bool)
    ensures
        r == (a@ == b@),
{
    if a.len() != b.len() {
        return false;
    }
    let mut i: usize = 0;
    while i < a.len()
        invariant
            i <= a.len(),
            a.len() == b.len(),
            forall|j: int| 0 <= j < i ==> a@[j] == b@[j],
        decreases a.len() - i,
    {
        if a[i] != b[i] {
            return false;
        }
        i = i + 1;
    }
    assert(a@ =~= b@);
    true
}

/// Give a request a snake-case identifier that no earlier request has, and
/// record it as used.
pub fn unique_snake_id(display: &str, used: &mut Vec<String>) -> (r: String)
    ensures
        r@ == unique_id(id_base(display@), strings_view(old(used)@)),
        strings_view(final(used)@) == strings_view(old(used)@).push(r@),
{
    let snake = to_snake_case(display);
    let base: Vec<char> = if snake.as_str().is_empty() {
        let mut b: Vec<char> = Vec::new();
        b.push('r');
        b.push('e');
        b.push('q');
        b.push('u');
        b.push('e');
        b.push('s');
        b.push('t');
        assert(b@ =~= seq!['r', 'e', 'q', 'u', 'e', 's', 't']);
        b
    } else {
        chars_of(snake.as_str())
    };
    assert(base@ == id_base(display@));
    let ghost u = strings_view(used@);
    let mut id: Vec<char> = subvec(&base, 0, base.len());
    assert(base@.subrange(0, base.len() as int) =~= base@);
    if strings_contain(used, &id) {
        let mut n: u128 = 2;
        id = base.clone();
        id.push('_');
        let digits = decimal_exec(n);
        append_chars(&mut id, &digits);
        while n - 1 <= used.len() as u128 && strings_contain(used, &id)
            invariant
                2 <= n <= used@.len() + 2,
                u == strings_view(used@),
                base@ == id_base(display@),
                id@ == numbered(base@, n as nat),
                next_free(base@, u, 2) == next_free(base@, u, n as nat),
            decreases used@.len() + 2 - n,
        {
            n = n + 1;
            id = base.clone();
            id.push('_');
            let digits = decimal_exec(n);
            append_chars(&mut id, &digits);
        }
        assert(id@ == next_free(base@, u, n as nat));
    }
    let r = string_of(&id);
    used.push(string_of(&id));
    assert(strings_view(used@) =~= u.push(r@));
    r
}

proof fn lemma_numbered_injective(base: Seq<char>, a: nat, b: nat)
    requires
        numbered(base, a) == numbered(base, b),
    ensures
        a == b,
{
    let na = numbered(base, a);
    let nb = numbered(base, b);
    assert(na.subrange(base.len() + 1int, na.len() as int) =~= decimal(a));
    assert(nb.subrange(base.len() + 1int, nb.len() as int) =~= decimal(b));
    lemma_decimal_injective(a, b);
}

proof fn lemma_next_free_fresh(base: Seq<char>, used: Seq<Seq<char>>, n: nat)
    requires
        2 <= n,
        used.contains(base),
        forall|k: nat| 2 <= k < n ==> used.contains(#[trigger] numbered(base, k)),
    ensures
        !used.contains(next_free(base, used, n)),
    decreases used.len() + 2 - n,
{
    if n > used.len() + 1 {
        if used.contains(numbered(base, n)) {
            let chain = seq![base] + Seq::new((n - 1) as nat, |k: int| numbered(base, (k + 2) as nat));
            assert(chain.no_duplicates()) by {
                assert forall|i: int, j: int|
                    0 <= i < chain.len() && 0 <= j < chain.len() && i != j implies chain[i]
                    != chain[j] by {
                    if i == 0 {
                        lemma_decimal_len((j + 1) as nat);
                        assert(chain[j].len() > base.len());
                    } else if j == 0 {
                        lemma_decimal_len((i + 1) as nat);
                        assert(chain[i].len() > base.len());
                    } else if chain[i] == chain[j] {
                        lemma_numbered_injective(base, (i + 1) as nat, (j + 1) as nat);
                    }
                }
            }
            chain.unique_seq_to_set();
            used.lemma_cardinality_of_set();
            assert(chain.to_set().subset_of(used.to_set())) by {
                assert forall|x: Seq<char>| chain.to_set().contains(x) implies used.to_set().contains(
                    x,
                ) by {
                    let i = choose|i: int| 0 <= i < chain.len() && chain[i] == x;
                    if i > 0 {
                        let k = (i + 1) as nat;
                        if k < n {
                            assert(used.contains(numbered(base, k)));
                        }
                    }
                }
            }
            vstd::seq_lib::seq_to_set_is_finite(used);
            vstd::set_lib::lemma_len_subset(chain.to_set(), used.to_set());
        }
    } else if !used.contains(numbered(base, n)) {
    } else {
        lemma_next_free_fresh(base, used, n + 1);
    }
}

/// The identifier given to a request is not among those already used.
pub proof fn lemma_unique_id_fresh(base: Seq<char>, used: Seq<Seq<char>>)
    ensures
        !used.contains(unique_id(base, used)),
{
    if used.contains(base) {
        lemma_next_free_fresh(base, used, 2);
    }
}

/// No two neighbouring characters of `s` are both `{`.
pub open spec fn no_double_open_brace(s: Seq<char>) -> bool {
    forall|i: int| 0 <= i < s.len() - 1 ==> !(s[i] == '{' && #[trigger] s[i + 1] == '{')
}

/// A body without `{{` is handed to the JSON parser as it is: replacing
/// template variables changes nothing in it, inside strings or outside.
pub proof fn lemma_nullify_without_template_vars(s: Seq<char>, in_string: bool, escape: bool)
    requires
        no_double_open_brace(s),
    ensures
        nullify_template_vars(s, in_string, escape) == s,
    decreases s.len(),
{
    if s.len() > 0 {
        let t = s.drop_first();
        assert(no_double_open_brace(t)) by {
            assert forall|i: int| 0 <= i < t.len() - 1 implies !(t[i] == '{' && #[trigger] t[i + 1]
                == '{') by {
                assert(t[i] == s[i + 1] && t[i + 1] == s[i + 2]);
            }
        }
        if s.len() >= 2 {
            let z: int = 0;
            assert(!(s[z] == '{' && s[z + 1] == '{'));
        }
        lemma_nullify_without_template_vars(t, true, false);
        lemma_nullify_without_template_vars(t, true, true);
        lemma_nullify_without_template_vars(t, false, false);
        lemma_nullify_without_template_vars(t, true, escape);
        lemma_nullify_without_template_vars(t, false, escape);
        assert(seq![s[0]] + t =~= s);
    }
}

} // verus!
