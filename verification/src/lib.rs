//! Tools for generating connector actions and triggers from API descriptions
//! (OpenAPI / Swagger documents and Postman collections).
use vstd::prelude::*;

pub mod code_text;
pub mod commands;
pub mod documents;
pub mod generate_action;
pub mod generate_trigger;
pub mod json;
pub mod openapi;
pub mod postman_body;
pub mod postman_collection;
pub mod postman_text;
pub mod templates;
pub mod text;

use crate::text::{
    ascii_lower, is_ascii_letter_or_digit, is_ascii_text, trim_end_char, trim_start_char,
    char_is_alphanumeric, char_is_uppercase, char_lowercase_first, chars_of, is_alphanumeric_char,
    is_uppercase_char, lemma_trim_char, lowercase_first_char, string_of, trim_char, trim_char_exec,
};

verus! {

/// One step of the snake-case conversion: the text built so far, `r`, after
/// reading the character `c`.
pub open spec fn snake_step(r: Seq<char>, c: char) -> Seq<char> {
    if !is_alphanumeric_char(c) {
        if r.len() == 0 || r.last() != '_' {
            r.push('_')
        } else {
            r
        }
    } else if is_uppercase_char(c) && r.len() > 0 {
        (if r.last() != '_' {
            r.push('_')
        } else {
            r
        }).push(lowercase_first_char(c))
    } else {
        r.push(lowercase_first_char(c))
    }
}

/// The snake-case text before leading and trailing underscores are removed.
pub open spec fn snake_raw(s: Seq<char>) -> Seq<char>
    decreases s.len(),
{
    if s.len() == 0 {
        Seq::empty()
    } else {
        snake_step(snake_raw(s.drop_last()), s.last())
    }
}

/// The snake-case form of `s`: every non-alphanumeric character becomes `_`,
/// an uppercase letter that does not start the text is preceded by `_`,
/// letters are lowercased, runs of `_` are not produced twice, and leading and
/// trailing `_` are removed.
pub open spec fn snake_case(s: Seq<char>) -> Seq<char> {
    trim_char(snake_raw(s), '_')
}

/// No two neighbouring characters of `s` are both `_`.
pub open spec fn no_double_underscore(s: Seq<char>) -> bool {
    forall|i: int| 0 <= i < s.len() - 1 ==> !(s[i] == '_' && #[trigger] s[i + 1] == '_')
}

/// The characters of `s` whose lowercase form is `_` are not alphanumeric
/// (true of every character that Unicode defines).
pub open spec fn lowercase_keeps_underscores_apart(s: Seq<char>) -> bool {
    forall|i: int|
        0 <= i < s.len() && is_alphanumeric_char(#[trigger] s[i]) ==> lowercase_first_char(s[i])
            != '_'
}

/// Convert a string to snake_case, handling all non-alphanumeric characters.
///
/// Every non-alphanumeric character becomes an underscore, an uppercase
/// letter gets an underscore before it (unless at the start or after an
/// underscore), consecutive separators collapse into one underscore, and
/// leading and trailing underscores are removed.
/// For example "getUsers", "get/Users", "get.Users", "get-Users" and
/// "get//Users" all become "get_users".
pub fn to_snake_case(input: &str) -> (r: String)
    ensures
        r@ == snake_case(input@),
        is_ascii_text(input@) ==> r@ == ascii_snake_case(input@),
{
    let chars = chars_of(input);
    let mut result: Vec<char> = Vec::new();
    let mut i: usize = 0;
    assert(chars@.subrange(0, 0) =~= Seq::<char>::empty());
    while i < chars.len()
        invariant
            i <= chars.len(),
            result@ == snake_raw(chars@.subrange(0, i as int)),
            chars@ == input@,
            is_ascii_text(input@) ==> result@ == ascii_snake_raw(chars@.subrange(0, i as int)),
        decreases chars.len() - i,
    {
        let c = chars[i];
        assert(chars@.subrange(0, i + 1).drop_last() =~= chars@.subrange(0, i as int));
        assert(chars@.subrange(0, i + 1).last() == c);
        assert(is_ascii_text(input@) ==> c <= '\x7f') by {
            if is_ascii_text(input@) {
                assert(input@[i as int] == c);
            }
        }
        if !char_is_alphanumeric(c) {
            if result.len() == 0 || result[result.len() - 1] != '_' {
                result.push('_');
            }
        } else if char_is_uppercase(c) && result.len() > 0 {
            if result[result.len() - 1] != '_' {
                result.push('_');
            }
            result.push(char_lowercase_first(c));
        } else {
            result.push(char_lowercase_first(c));
        }
        i = i + 1;
    }
    assert(chars@.subrange(0, chars.len() as int) =~= chars@);
    let trimmed = trim_char_exec(&result, '_');
    string_of(&trimmed)
}

/// The snake-case form never starts or ends with an underscore.
pub proof fn lemma_snake_case_no_edge_underscore(s: Seq<char>)
    ensures
        snake_case(s).len() > 0 ==> snake_case(s)[0] != '_' && snake_case(s).last() != '_',
{
    lemma_trim_char(snake_raw(s), '_');
}

proof fn lemma_snake_raw_no_double(s: Seq<char>)
    requires
        lowercase_keeps_underscores_apart(s),
    ensures
        no_double_underscore(snake_raw(s)),
    decreases s.len(),
{
    if s.len() > 0 {
        let p = s.drop_last();
        assert(lowercase_keeps_underscores_apart(p)) by {
            assert forall|i: int|
                0 <= i < p.len() && is_alphanumeric_char(#[trigger] p[i]) implies lowercase_first_char(
                p[i],
            ) != '_' by {
                assert(p[i] == s[i]);
            }
        }
        lemma_snake_raw_no_double(p);
        let r = snake_raw(p);
        let c = s.last();
        assert(s[s.len() - 1] == c);
        let n = snake_step(r, c);
        assert forall|i: int| 0 <= i < n.len() - 1 implies !(n[i] == '_' && #[trigger] n[i + 1]
            == '_') by {
            if i < r.len() - 1 {
                assert(n[i] == r[i] && n[i + 1] == r[i + 1]);
            }
        }
    }
}

/// When no alphanumeric character of `s` lowercases to `_`, the snake-case form
/// of `s` never holds two underscores in a row.
pub proof fn lemma_snake_case_no_double_underscore(s: Seq<char>)
    requires
        lowercase_keeps_underscores_apart(s),
    ensures
        no_double_underscore(snake_case(s)),
{
    lemma_snake_raw_no_double(s);
    let raw = snake_raw(s);
    let k = lemma_trim_char(raw, '_');
    let t = snake_case(s);
    assert forall|i: int| 0 <= i < t.len() - 1 implies !(t[i] == '_' && #[trigger] t[i + 1]
        == '_') by {
        assert(t[i] == raw[k + i] && t[i + 1] == raw[k + i + 1]);
    }
}

/// One step of the snake-case conversion of ASCII text, with the character
/// functions as the standard library documents them on ASCII: letters and
/// digits are alphanumeric, `'A'..='Z'` are uppercase, and lowercasing maps
/// `'A'..='Z'` to `'a'..='z'`.
pub open spec fn ascii_snake_step(r: Seq<char>, c: char) -> Seq<char> {
    if !is_ascii_letter_or_digit(c) {
        if r.len() == 0 || r.last() != '_' {
            r.push('_')
        } else {
            r
        }
    } else if 'A' <= c && c <= 'Z' && r.len() > 0 {
        (if r.last() != '_' {
            r.push('_')
        } else {
            r
        }).push(ascii_lower(c))
    } else {
        r.push(ascii_lower(c))
    }
}

/// The snake-case text of ASCII text before leading and trailing
/// underscores are removed.
pub open spec fn ascii_snake_raw(s: Seq<char>) -> Seq<char>
    decreases s.len(),
{
    if s.len() == 0 {
        Seq::empty()
    } else {
        ascii_snake_step(ascii_snake_raw(s.drop_last()), s.last())
    }
}

/// The snake-case form of ASCII text.
pub open spec fn ascii_snake_case(s: Seq<char>) -> Seq<char> {
    trim_char(ascii_snake_raw(s), '_')
}

/// Only lowercase ASCII letters, ASCII digits and `_`.
pub open spec fn snake_chars(u: Seq<char>) -> bool {
    forall|i: int|
        0 <= i < u.len() ==> ('a' <= #[trigger] u[i] && u[i] <= 'z') || ('0' <= u[i] && u[i]
            <= '9') || u[i] == '_'
}

proof fn lemma_ascii_raw_shape(s: Seq<char>)
    ensures
        snake_chars(ascii_snake_raw(s)),
        no_double_underscore(ascii_snake_raw(s)),
    decreases s.len(),
{
    if s.len() > 0 {
        let p = s.drop_last();
        lemma_ascii_raw_shape(p);
        let c = s.last();
        let r = ascii_snake_raw(p);
        let n = ascii_snake_step(r, c);
        if is_ascii_letter_or_digit(c) {
            let l = ascii_lower(c);
            assert(('a' <= l && l <= 'z') || ('0' <= l && l <= '9')) by {
                if 'A' <= c && c <= 'Z' {
                    assert(('a' as u32) <= (c as u32) + 32 <= ('z' as u32));
                }
            }
        }
        assert forall|i: int| 0 <= i < n.len() implies ('a' <= #[trigger] n[i] && n[i] <= 'z') || (
        '0' <= n[i] && n[i] <= '9') || n[i] == '_' by {
            if i < r.len() {
                assert(n[i] == r[i]);
            }
        }
        assert forall|i: int| 0 <= i < n.len() - 1 implies !(n[i] == '_' && #[trigger] n[i + 1]
            == '_') by {
            if i < r.len() - 1 {
                assert(n[i] == r[i] && n[i + 1] == r[i + 1]);
            }
        }
    }
}

proof fn lemma_ascii_raw_fixed(u: Seq<char>)
    requires
        snake_chars(u),
        no_double_underscore(u),
        u.len() > 0 ==> u[0] != '_',
    ensures
        ascii_snake_raw(u) == u,
    decreases u.len(),
{
    if u.len() > 0 {
        let w = u.drop_last();
        assert(snake_chars(w)) by {
            assert forall|i: int| 0 <= i < w.len() implies ('a' <= #[trigger] w[i] && w[i] <= 'z')
                || ('0' <= w[i] && w[i] <= '9') || w[i] == '_' by {
                assert(w[i] == u[i]);
            }
        }
        assert(no_double_underscore(w)) by {
            assert forall|i: int| 0 <= i < w.len() - 1 implies !(w[i] == '_' && #[trigger] w[i + 1]
                == '_') by {
                assert(w[i] == u[i] && w[i + 1] == u[i + 1]);
            }
        }
        if w.len() > 0 {
            assert(w[0] == u[0]);
        }
        lemma_ascii_raw_fixed(w);
        let c = u.last();
        assert(u[u.len() - 1] == c);
        if c == '_' {
            assert(w.len() > 0);
            let k = u.len() - 2;
            assert(w.last() == u[k]);
            assert(!(u[k] == '_' && u[k + 1] == '_'));
        }
        assert(w.push(c) =~= u);
    }
}

/// The snake-case form of ASCII text is ASCII text again, and converting it
/// once more changes nothing: on ASCII text snake case is idempotent.
pub proof fn lemma_snake_case_idempotent(s: Seq<char>)
    ensures
        is_ascii_text(ascii_snake_case(s)),
        ascii_snake_case(ascii_snake_case(s)) == ascii_snake_case(s),
{
    let t = ascii_snake_case(s);
    lemma_ascii_raw_shape(s);
    let raw = ascii_snake_raw(s);
    let k = lemma_trim_char(raw, '_');
    assert(snake_chars(t)) by {
        assert forall|i: int| 0 <= i < t.len() implies ('a' <= #[trigger] t[i] && t[i] <= 'z') || (
        '0' <= t[i] && t[i] <= '9') || t[i] == '_' by {
            assert(t[i] == raw[k + i]);
        }
    }
    assert(no_double_underscore(t)) by {
        assert forall|i: int| 0 <= i < t.len() - 1 implies !(t[i] == '_' && #[trigger] t[i + 1]
            == '_') by {
            assert(t[i] == raw[k + i] && t[i + 1] == raw[k + i + 1]);
        }
    }
    assert(is_ascii_text(t)) by {
        assert forall|i: int| 0 <= i < t.len() implies #[trigger] t[i] <= '\x7f' by {
            assert(snake_chars(t));
            assert(('a' <= t[i] && t[i] <= 'z') || ('0' <= t[i] && t[i] <= '9') || t[i] == '_');
        }
    }
    lemma_ascii_raw_fixed(t);
    if t.len() > 0 {
        assert(trim_start_char(t, '_') == t);
        assert(trim_end_char(t, '_') == t);
    } else {
        assert(trim_start_char(t, '_') == t);
    }
}

} // verus!
