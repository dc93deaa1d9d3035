//! Character-sequence operations used throughout the library.
//!
//! Text is handled as `Vec<char>` while it is being transformed; each operation
//! here is stated over the `Seq<char>` view of its arguments.
use vstd::prelude::*;

verus! {

// ---------------------------------------------------------------------------
// Facts about characters and strings that come from the standard library.
// ---------------------------------------------------------------------------

/// Whether `char::is_alphanumeric` holds of `c` (Unicode Alphabetic or Numeric).
pub uninterp spec fn is_alphanumeric_char(c: char) -> bool;

/// Whether `char::is_uppercase` holds of `c` (Unicode Uppercase property).
pub uninterp spec fn is_uppercase_char(c: char) -> bool;

/// The first character of the Unicode lowercase mapping of `c`.
pub uninterp spec fn lowercase_first_char(c: char) -> char;

/// Whether `char::is_lowercase` holds of `c` (Unicode Lowercase property).
pub uninterp spec fn is_lowercase_char(c: char) -> bool;

/// Whether `char::is_whitespace` holds of `c` (Unicode White_Space property).
pub uninterp spec fn is_whitespace_char(c: char) -> bool;

/// The Unicode lowercase form of a whole string (`str::to_lowercase`).
pub uninterp spec fn lowercase_str(s: Seq<char>) -> Seq<char>;

/// The Unicode uppercase form of a whole string (`str::to_uppercase`).
pub uninterp spec fn uppercase_str(s: Seq<char>) -> Seq<char>;

/// What `<str as Debug>::fmt` writes for a string.
pub uninterp spec fn debug_str_text(s: Seq<char>) -> Seq<char>;

pub open spec fn is_ascii_letter_or_digit(c: char) -> bool {
    ('a' <= c && c <= 'z') || ('A' <= c && c <= 'Z') || ('0' <= c && c <= '9')
}

/// The ASCII lowercase of `c`: `'A'..='Z'` becomes `'a'..='z'`, any other
/// character stays.
pub open spec fn ascii_lower(c: char) -> char {
    if 'A' <= c && c <= 'Z' {
        ((c as u32) + 32) as char
    } else {
        c
    }
}

/// The ASCII uppercase of `c`: `'a'..='z'` becomes `'A'..='Z'`, any other
/// character stays.
pub open spec fn ascii_upper(c: char) -> char {
    if 'a' <= c && c <= 'z' {
        ((c as u32) - 32) as char
    } else {
        c
    }
}

/// Every character is ASCII.
pub open spec fn is_ascii_text(s: Seq<char>) -> bool {
    forall|i: int| 0 <= i < s.len() ==> #[trigger] s[i] <= '\x7f'
}

/// The characters of `s`, in order.
pub(crate) fn chars_of(s: &str) -> (r: Vec<char>)
    ensures
        r@ == s@,
{
    let mut v: Vec<char> = Vec::new();
    for c in it: s.chars()
        invariant
            v@ == it.seq().take(it.index() as int),
            it.seq() == s@,
    {
        v.push(c);
    }
    v
}

/// `String: FromIterator<&char>`: the string made of the characters of `v`, in order.
#[verifier::external_body]
pub(crate) fn string_of(v: &Vec<char>) -> (r: String)
    ensures
        r@ == v@,
{
    v.iter().collect()
}

/// `char::is_alphanumeric`. On ASCII it holds exactly of letters and digits,
/// as the Unicode general categories give.
#[verifier::external_body]
pub(crate) fn char_is_alphanumeric(c: char) -> (r: bool)
    ensures
        r == is_alphanumeric_char(c),
        c <= '\x7f' ==> (r <==> is_ascii_letter_or_digit(c)),
{
    c.is_alphanumeric()
}

/// `char::is_uppercase`. On ASCII it holds exactly of `'A'..='Z'`.
#[verifier::external_body]
pub(crate) fn char_is_uppercase(c: char) -> (r: bool)
    ensures
        r == is_uppercase_char(c),
        c <= '\x7f' ==> (r <==> ('A' <= c && c <= 'Z')),
{
    c.is_uppercase()
}

/// `char::is_lowercase`. On ASCII it holds exactly of `'a'..='z'`.
#[verifier::external_body]
pub(crate) fn char_is_lowercase(c: char) -> (r: bool)
    ensures
        r == is_lowercase_char(c),
        c <= '\x7f' ==> (r <==> ('a' <= c && c <= 'z')),
{
    c.is_lowercase()
}

/// `char::to_lowercase`, taking the first character it yields (or `c` itself
/// when it yields none). On ASCII it maps `'A'..='Z'` to `'a'..='z'` and keeps
/// every other character.
#[verifier::external_body]
pub(crate) fn char_lowercase_first(c: char) -> (r: char)
    ensures
        r == lowercase_first_char(c),
        c <= '\x7f' ==> r == ascii_lower(c),
{
    c.to_lowercase().next().unwrap_or(c)
}

/// `char::is_whitespace`. On ASCII it holds exactly of the space and of
/// `'\t'..='\r'` (tab, line feed, vertical tab, form feed, carriage return),
/// the ASCII characters of the Unicode White_Space property.
#[verifier::external_body]
pub(crate) fn char_is_whitespace(c: char) -> (r: bool)
    ensures
        r == is_whitespace_char(c),
        c <= '\x7f' ==> (r <==> (c == ' ' || ('\t' <= c && c <= '\r'))),
{
    c.is_whitespace()
}

/// `str::to_lowercase`. On ASCII text it lowercases `'A'..='Z'` and keeps
/// every other character, one for one.
#[verifier::external_body]
pub(crate) fn str_to_lowercase(s: &str) -> (r: String)
    ensures
        r@ == lowercase_str(s@),
        is_ascii_text(s@) ==> r@ == s@.map_values(|c: char| ascii_lower(c)),
{
    s.to_lowercase()
}

/// `str::to_uppercase`. On ASCII text it uppercases `'a'..='z'` and keeps
/// every other character, one for one.
#[verifier::external_body]
pub(crate) fn str_to_uppercase(s: &str) -> (r: String)
    ensures
        r@ == uppercase_str(s@),
        is_ascii_text(s@) ==> r@ == s@.map_values(|c: char| ascii_upper(c)),
{
    s.to_uppercase()
}

/// `<str as Debug>::fmt`, as `format!("{:?}", s)` writes it: the string
/// quoted, with escapes. Only its name is stated.
#[verifier::external_body]
pub(crate) fn str_debug(s: &str) -> (r: String)
    ensures
        r@ == debug_str_text(s@),
{
    format!("{:?}", s)
}

/// Whether two texts hold the same characters.
pub(crate) fn str_eq(a: &str, b: &str) -> (r: bool)
    ensures
        r == (a@ == b@),
{
    let x = chars_of(a);
    let y = chars_of(b);
    if x.len() != y.len() {
        return false;
    }
    let mut i: usize = 0;
    while i < x.len()
        invariant
            i <= x.len(),
            x.len() == y.len(),
            x@ == a@,
            y@ == b@,
            forall|j: int| 0 <= j < i ==> x@[j] == y@[j],
        decreases x.len() - i,
    {
        if x[i] != y[i] {
            return false;
        }
        i = i + 1;
    }
    assert(a@ =~= b@);
    true
}

// ---------------------------------------------------------------------------
// Searching
// ---------------------------------------------------------------------------

/// Whether `n` occurs in `h` starting at index `i`.
pub open spec fn matches_at(h: Seq<char>, n: Seq<char>, i: int) -> bool {
    0 <= i && i + n.len() <= h.len() && h.subrange(i, i + n.len()) == n
}

/// The leftmost index `>= i` at which `n` occurs in `h`.
pub open spec fn find_from(h: Seq<char>, n: Seq<char>, i: int) -> Option<int>
    decreases h.len() + 1 - i,
{
    if i < 0 || i + n.len() > h.len() {
        None
    } else if h.subrange(i, i + n.len()) == n {
        Some(i)
    } else {
        find_from(h, n, i + 1)
    }
}

/// The leftmost index at which `n` occurs in `h` (`str::find`).
pub open spec fn find(h: Seq<char>, n: Seq<char>) -> Option<int> {
    find_from(h, n, 0)
}

/// Whether `n` occurs somewhere in `h`.
pub open spec fn has_text(h: Seq<char>, n: Seq<char>) -> bool {
    exists|i: int| #[trigger] matches_at(h, n, i)
}

/// A text that ends with `n` holds `n`, and so does every text that starts
/// with one holding `n`.
pub proof fn lemma_has_text(n: Seq<char>)
    ensures
        forall|x: Seq<char>| #[trigger] has_text(x + n, n),
        forall|h: Seq<char>, t: Seq<char>| has_text(h, n) ==> #[trigger] has_text(h + t, n),
{
    assert forall|x: Seq<char>| #[trigger] has_text(x + n, n) by {
        assert((x + n).subrange(x.len() as int, (x.len() + n.len()) as int) =~= n);
        assert(matches_at(x + n, n, x.len() as int));
    }
    assert forall|h: Seq<char>, t: Seq<char>| has_text(h, n) implies #[trigger] has_text(h + t, n) by {
        let i = choose|i: int| #[trigger] matches_at(h, n, i);
        assert((h + t).subrange(i, i + n.len()) =~= h.subrange(i, i + n.len()));
        assert(matches_at(h + t, n, i));
    }
}

pub open spec fn contains_seq(h: Seq<char>, n: Seq<char>) -> bool {
    find(h, n) is Some
}

pub open spec fn starts_with(s: Seq<char>, p: Seq<char>) -> bool {
    p.len() <= s.len() && s.subrange(0, p.len() as int) == p
}

pub open spec fn ends_with(s: Seq<char>, p: Seq<char>) -> bool {
    p.len() <= s.len() && s.subrange(s.len() - p.len(), s.len() as int) == p
}

pub proof fn lemma_find_from(h: Seq<char>, n: Seq<char>, i: int)
    requires
        0 <= i,
    ensures
        find_from(h, n, i) matches Some(k) ==> i <= k && matches_at(h, n, k) && forall|j: int|
            i <= j < k ==> !matches_at(h, n, j),
        find_from(h, n, i) is None ==> forall|j: int| i <= j ==> !matches_at(h, n, j),
    decreases h.len() + 1 - i,
{
    if i + n.len() > h.len() {
    } else if h.subrange(i, i + n.len()) == n {
    } else {
        lemma_find_from(h, n, i + 1);
    }
}

/// The characters of `v` from `i` to `j`.
pub fn subvec(v: &Vec<char>, i: usize, j: usize) -> (r: Vec<char>)
    requires
        i <= j <= v.len(),
    ensures
        r@ == v@.subrange(i as int, j as int),
{
    let mut r: Vec<char> = Vec::new();
    let mut k = i;
    while k < j
        invariant
            i <= k <= j <= v.len(),
            r@ == v@.subrange(i as int, k as int),
        decreases j - k,
    {
        r.push(v[k]);
        k = k + 1;
        assert(r@ =~= v@.subrange(i as int, k as int));
    }
    r
}

/// Whether `n` occurs in `h` at index `i`.
pub fn matches_at_exec(h: &Vec<char>, n: &Vec<char>, i: usize) -> (r: bool)
    ensures
        r == matches_at(h@, n@, i as int),
{
    if n.len() > h.len() || i > h.len() - n.len() {
        return false;
    }
    let mut k: usize = 0;
    while k < n.len()
        invariant
            i + n.len() <= h.len(),
            k <= n.len(),
            forall|t: int| 0 <= t < k ==> h@[i + t] == n@[t],
        decreases n.len() - k,
    {
        if h[i + k] != n[k] {
            assert(h@.subrange(i as int, i + n.len())[k as int] != n@[k as int]);
            return false;
        }
        k = k + 1;
    }
    assert(h@.subrange(i as int, i + n.len()) =~= n@);
    true
}

/// The leftmost index `>= start` at which `n` occurs in `h`.
pub fn find_from_exec(h: &Vec<char>, n: &Vec<char>, start: usize) -> (r: Option<usize>)
    ensures
        match r {
            Some(k) => find_from(h@, n@, start as int) == Some(k as int),
            None => find_from(h@, n@, start as int) is None,
        },
{
    if n.len() > h.len() || start > h.len() - n.len() {
        return None;
    }
    if n.len() == 0 {
        assert(h@.subrange(start as int, start as int) =~= n@);
        return Some(start);
    }
    let mut i = start;
    while i <= h.len() - n.len()
        invariant
            1 <= n.len() <= h.len(),
            start <= i,
            find_from(h@, n@, start as int) == find_from(h@, n@, i as int),
        decreases h.len() - i,
    {
        if matches_at_exec(h, n, i) {
            return Some(i);
        }
        i = i + 1;
    }
    None
}

/// The leftmost index at which `n` occurs in `h`.
pub fn find_exec(h: &Vec<char>, n: &Vec<char>) -> (r: Option<usize>)
    ensures
        match r {
            Some(k) => find(h@, n@) == Some(k as int),
            None => find(h@, n@) is None,
        },
{
    find_from_exec(h, n, 0)
}

/// Whether `n` occurs in `h`.
pub fn contains_exec(h: &Vec<char>, n: &Vec<char>) -> (r: bool)
    ensures
        r == contains_seq(h@, n@),
{
    find_exec(h, n).is_some()
}

/// Whether `s` starts with `p`.
pub fn starts_with_exec(s: &Vec<char>, p: &Vec<char>) -> (r: bool)
    ensures
        r == starts_with(s@, p@),
{
    if p.len() > s.len() {
        return false;
    }
    let r = matches_at_exec(s, p, 0);
    r
}

/// Whether `s` ends with `p`.
pub fn ends_with_exec(s: &Vec<char>, p: &Vec<char>) -> (r: bool)
    ensures
        r == ends_with(s@, p@),
{
    if p.len() > s.len() {
        return false;
    }
    matches_at_exec(s, p, s.len() - p.len())
}

/// Whether the character `c` occurs in `s`.
pub fn contains_char(s: &Vec<char>, c: char) -> (r: bool)
    ensures
        r == s@.contains(c),
{
    let mut i: usize = 0;
    while i < s.len()
        invariant
            i <= s.len(),
            forall|j: int| 0 <= j < i ==> s@[j] != c,
        decreases s.len() - i,
    {
        if s[i] == c {
            return true;
        }
        i = i + 1;
    }
    false
}

/// Appends the characters of `src` to `dst`.
pub fn append_chars(dst: &mut Vec<char>, src: &Vec<char>)
    ensures
        final(dst)@ == old(dst)@ + src@,
{
    let mut i: usize = 0;
    let ghost d0 = dst@;
    while i < src.len()
        invariant
            i <= src.len(),
            dst@ == d0 + src@.subrange(0, i as int),
        decreases src.len() - i,
    {
        dst.push(src[i]);
        i = i + 1;
        assert(dst@ =~= d0 + src@.subrange(0, i as int));
    }
    assert(src@.subrange(0, src.len() as int) =~= src@);
}

/// Appends the characters of the string `src` to `dst`.
pub fn append_str(dst: &mut Vec<char>, src: &str)
    ensures
        final(dst)@ == old(dst)@ + src@,
{
    let v = chars_of(src);
    append_chars(dst, &v);
}

/// The characters of `a` followed by those of `b`, as a `String`.
pub fn concat_strs(a: &str, b: &str) -> (r: String)
    ensures
        r@ == a@ + b@,
{
    let mut v = chars_of(a);
    append_str(&mut v, b);
    string_of(&v)
}

// ---------------------------------------------------------------------------
// Replacing
// ---------------------------------------------------------------------------

/// `str::replace` with a non-empty pattern: every leftmost, non-overlapping
/// occurrence of `pat` in `s` is replaced by `rep`.
pub open spec fn replace_all(s: Seq<char>, pat: Seq<char>, rep: Seq<char>) -> Seq<char>
    decreases s.len(),
{
    if pat.len() == 0 || s.len() < pat.len() {
        s
    } else if s.subrange(0, pat.len() as int) == pat {
        rep + replace_all(s.subrange(pat.len() as int, s.len() as int), pat, rep)
    } else {
        seq![s[0]] + replace_all(s.subrange(1, s.len() as int), pat, rep)
    }
}

/// Replaces every occurrence of `pat` in `s` by `rep`.
pub fn replace_all_exec(s: &Vec<char>, pat: &Vec<char>, rep: &Vec<char>) -> (r: Vec<char>)
    requires
        pat.len() > 0,
    ensures
        r@ == replace_all(s@, pat@, rep@),
{
    let mut out: Vec<char> = Vec::new();
    let mut i: usize = 0;
    assert(s@.subrange(0, s.len() as int) =~= s@);
    while i < s.len()
        invariant
            i <= s.len(),
            pat.len() > 0,
            out@ + replace_all(s@.subrange(i as int, s.len() as int), pat@, rep@) == replace_all(
                s@,
                pat@,
                rep@,
            ),
        decreases s.len() - i,
    {
        let ghost rest = s@.subrange(i as int, s.len() as int);
        if pat.len() <= s.len() - i && matches_at_exec(s, pat, i) {
            assert(rest.subrange(0, pat.len() as int) =~= s@.subrange(
                i as int,
                i + pat.len(),
            ));
            assert(rest.subrange(pat.len() as int, rest.len() as int) =~= s@.subrange(
                i + pat.len(),
                s.len() as int,
            ));
            let ghost out0 = out@;
            append_chars(&mut out, rep);
            i = i + pat.len();
            assert(out@ + replace_all(s@.subrange(i as int, s.len() as int), pat@, rep@) =~= out0
                + (rep@ + replace_all(s@.subrange(i as int, s.len() as int), pat@, rep@)));
        } else {
            if pat.len() <= s.len() - i {
                assert(rest.subrange(0, pat.len() as int) =~= s@.subrange(
                    i as int,
                    i + pat.len(),
                ));
            }
            assert(rest.subrange(1, rest.len() as int) =~= s@.subrange(i + 1, s.len() as int));
            let ghost out0 = out@;
            out.push(s[i]);
            i = i + 1;
            assert(out@ + replace_all(s@.subrange(i as int, s.len() as int), pat@, rep@) =~= out0
                + (seq![rest[0]] + replace_all(s@.subrange(i as int, s.len() as int), pat@, rep@)));
        }
    }
    assert(s@.subrange(s.len() as int, s.len() as int) =~= Seq::<char>::empty());
    assert(out@ + Seq::<char>::empty() =~= out@);
    out
}

/// The character sequences held by a sequence of character vectors.
pub open spec fn views(v: Seq<Vec<char>>) -> Seq<Seq<char>> {
    Seq::new(v.len(), |i: int| v[i]@)
}

// ---------------------------------------------------------------------------
// Splitting
// ---------------------------------------------------------------------------

/// `str::split` on a single character: the pieces of `s` between the
/// occurrences of `c` (always at least one piece).
pub open spec fn split_char(s: Seq<char>, c: char) -> Seq<Seq<char>>
    decreases s.len(),
{
    if s.len() == 0 {
        seq![Seq::<char>::empty()]
    } else {
        let r = split_char(s.drop_last(), c);
        if s.last() == c {
            r.push(Seq::<char>::empty())
        } else {
            r.update(r.len() - 1, r.last().push(s.last()))
        }
    }
}

pub proof fn lemma_split_char_nonempty(s: Seq<char>, c: char)
    ensures
        split_char(s, c).len() >= 1,
    decreases s.len(),
{
    if s.len() > 0 {
        lemma_split_char_nonempty(s.drop_last(), c);
    }
}

/// Splits `s` at every occurrence of `c`.
pub fn split_char_exec(s: &Vec<char>, c: char) -> (r: Vec<Vec<char>>)
    ensures
        views(r@) == split_char(s@, c),
{
    let mut pieces: Vec<Vec<char>> = Vec::new();
    let mut cur: Vec<char> = Vec::new();
    let mut i: usize = 0;
    assert(s@.subrange(0, 0) =~= Seq::<char>::empty());
    assert(views(pieces@).push(cur@) =~= split_char(s@.subrange(0, 0), c));
    while i < s.len()
        invariant
            i <= s.len(),
            views(pieces@).push(cur@) == split_char(s@.subrange(0, i as int), c),
        decreases s.len() - i,
    {
        let ghost pre = s@.subrange(0, i as int);
        assert(s@.subrange(0, i + 1).drop_last() =~= pre);
        assert(s@.subrange(0, i + 1).last() == s@[i as int]);
        proof {
            lemma_split_char_nonempty(pre, c);
        }
        if s[i] == c {
            pieces.push(cur);
            cur = Vec::new();
            assert(views(pieces@).push(cur@) =~= split_char(s@.subrange(0, i + 1), c));
        } else {
            let ghost old_pieces = views(pieces@);
            cur.push(s[i]);
            assert(views(pieces@).push(cur@) =~= split_char(s@.subrange(0, i + 1), c));
        }
        i = i + 1;
    }
    assert(s@.subrange(0, s.len() as int) =~= s@);
    pieces.push(cur);
    assert(views(pieces@) =~= split_char(s@, c));
    pieces
}

// ---------------------------------------------------------------------------
// Trimming
// ---------------------------------------------------------------------------

pub open spec fn trim_start_char(s: Seq<char>, c: char) -> Seq<char>
    decreases s.len(),
{
    if s.len() > 0 && s[0] == c {
        trim_start_char(s.drop_first(), c)
    } else {
        s
    }
}

pub open spec fn trim_end_char(s: Seq<char>, c: char) -> Seq<char>
    decreases s.len(),
{
    if s.len() > 0 && s.last() == c {
        trim_end_char(s.drop_last(), c)
    } else {
        s
    }
}

/// `str::trim_matches` with a character pattern.
pub open spec fn trim_char(s: Seq<char>, c: char) -> Seq<char> {
    trim_end_char(trim_start_char(s, c), c)
}

pub open spec fn trim_ws_start(s: Seq<char>) -> Seq<char>
    decreases s.len(),
{
    if s.len() > 0 && is_whitespace_char(s[0]) {
        trim_ws_start(s.drop_first())
    } else {
        s
    }
}

pub open spec fn trim_ws_end(s: Seq<char>) -> Seq<char>
    decreases s.len(),
{
    if s.len() > 0 && is_whitespace_char(s.last()) {
        trim_ws_end(s.drop_last())
    } else {
        s
    }
}

/// `str::trim`.
pub open spec fn trim_ws(s: Seq<char>) -> Seq<char> {
    trim_ws_end(trim_ws_start(s))
}

/// `str::trim_start_matches` with a character pattern.
pub fn trim_start_char_exec(s: &Vec<char>, c: char) -> (r: Vec<char>)
    ensures
        r@ == trim_start_char(s@, c),
{
    let mut i: usize = 0;
    assert(s@.subrange(0, s.len() as int) =~= s@);
    while i < s.len() && s[i] == c
        invariant
            i <= s.len(),
            trim_start_char(s@, c) == trim_start_char(s@.subrange(i as int, s.len() as int), c),
        decreases s.len() - i,
    {
        assert(s@.subrange(i as int, s.len() as int).drop_first() =~= s@.subrange(
            i + 1,
            s.len() as int,
        ));
        i = i + 1;
    }
    subvec(s, i, s.len())
}

/// `str::trim_end_matches` with a character pattern.
pub fn trim_end_char_exec(s: &Vec<char>, c: char) -> (r: Vec<char>)
    ensures
        r@ == trim_end_char(s@, c),
{
    let mut j: usize = s.len();
    assert(s@.subrange(0, s.len() as int) =~= s@);
    while j > 0 && s[j - 1] == c
        invariant
            j <= s.len(),
            trim_end_char(s@, c) == trim_end_char(s@.subrange(0, j as int), c),
        decreases j,
    {
        assert(s@.subrange(0, j as int).drop_last() =~= s@.subrange(0, j - 1));
        j = j - 1;
    }
    subvec(s, 0, j)
}

/// `str::trim_matches` with a character pattern.
pub fn trim_char_exec(s: &Vec<char>, c: char) -> (r: Vec<char>)
    ensures
        r@ == trim_char(s@, c),
{
    let t = trim_start_char_exec(s, c);
    trim_end_char_exec(&t, c)
}

/// `str::trim_start`.
pub fn trim_ws_start_exec(s: &Vec<char>) -> (r: Vec<char>)
    ensures
        r@ == trim_ws_start(s@),
{
    let mut i: usize = 0;
    assert(s@.subrange(0, s.len() as int) =~= s@);
    while i < s.len() && char_is_whitespace(s[i])
        invariant
            i <= s.len(),
            trim_ws_start(s@) == trim_ws_start(s@.subrange(i as int, s.len() as int)),
        decreases s.len() - i,
    {
        assert(s@.subrange(i as int, s.len() as int).drop_first() =~= s@.subrange(
            i + 1,
            s.len() as int,
        ));
        i = i + 1;
    }
    subvec(s, i, s.len())
}

/// `str::trim_end`.
pub fn trim_ws_end_exec(s: &Vec<char>) -> (r: Vec<char>)
    ensures
        r@ == trim_ws_end(s@),
{
    let mut j: usize = s.len();
    assert(s@.subrange(0, s.len() as int) =~= s@);
    while j > 0 && char_is_whitespace(s[j - 1])
        invariant
            j <= s.len(),
            trim_ws_end(s@) == trim_ws_end(s@.subrange(0, j as int)),
        decreases j,
    {
        assert(s@.subrange(0, j as int).drop_last() =~= s@.subrange(0, j - 1));
        j = j - 1;
    }
    subvec(s, 0, j)
}

/// `str::trim`.
pub fn trim_ws_exec(s: &Vec<char>) -> (r: Vec<char>)
    ensures
        r@ == trim_ws(s@),
{
    let t = trim_ws_start_exec(s);
    trim_ws_end_exec(&t)
}

/// After trimming `c` from the start, the text is empty or starts with another character.
pub proof fn lemma_trim_start_char(s: Seq<char>, c: char)
    ensures
        trim_start_char(s, c).len() == 0 || trim_start_char(s, c)[0] != c,
        trim_start_char(s, c).len() <= s.len(),
        trim_start_char(s, c) == s.subrange(s.len() - trim_start_char(s, c).len(), s.len() as int),
    decreases s.len(),
{
    if s.len() > 0 && s[0] == c {
        lemma_trim_start_char(s.drop_first(), c);
        let t = trim_start_char(s.drop_first(), c);
        assert(s.drop_first().subrange(s.len() - 1 - t.len(), s.len() - 1) =~= s.subrange(
            s.len() - t.len(),
            s.len() as int,
        ));
    } else {
        assert(s.subrange(0, s.len() as int) =~= s);
    }
}

/// After trimming `c` from the end, the text is a prefix of `s` that
/// is empty or ends with another character.
pub proof fn lemma_trim_end_char(s: Seq<char>, c: char)
    ensures
        trim_end_char(s, c).len() == 0 || trim_end_char(s, c).last() != c,
        trim_end_char(s, c).len() <= s.len(),
        trim_end_char(s, c) == s.subrange(0, trim_end_char(s, c).len() as int),
    decreases s.len(),
{
    if s.len() > 0 && s.last() == c {
        lemma_trim_end_char(s.drop_last(), c);
        let t = trim_end_char(s.drop_last(), c);
        assert(s.drop_last().subrange(0, t.len() as int) =~= s.subrange(0, t.len() as int));
    } else {
        assert(s.subrange(0, s.len() as int) =~= s);
    }
}

/// `trim_char` leaves neither a leading nor a trailing `c`, and keeps a
/// contiguous part of `s`.
pub proof fn lemma_trim_char(s: Seq<char>, c: char) -> (i: int)
    ensures
        trim_char(s, c).len() > 0 ==> trim_char(s, c)[0] != c && trim_char(s, c).last() != c,
        0 <= i,
        i + trim_char(s, c).len() <= s.len(),
        trim_char(s, c) == s.subrange(i, i + trim_char(s, c).len()),
{
    let t = trim_start_char(s, c);
    lemma_trim_start_char(s, c);
    lemma_trim_end_char(t, c);
    let u = trim_end_char(t, c);
    if u.len() > 0 {
        assert(u[0] == t[0]);
    }
    let i = s.len() - t.len();
    assert(u =~= s.subrange(i, i + u.len()));
    i
}

} // verus!
