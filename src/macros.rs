//! `@KEY.field` macros: a reference to a field of a directory entry inside message text.

use vstd::prelude::*;

use crate::directory::{lookup, Config, DirectoryModel};
use crate::text::{
    ascii_upper, chars_of, is_white_space, lemma_run_end, push_char, run_end,
    slice_chars, string_of, white_space,
};
use vstd::string::StringExecFns;

verus! {

pub open spec fn is_upper() -> spec_fn(char) -> bool {
    |c: char| ascii_upper(c)
}

pub open spec fn is_not_white() -> spec_fn(char) -> bool {
    |c: char| !white_space(c)
}

/// Where the key of a macro at the start of `s` ends: the run of `A`-`Z` after the `@`.
pub open spec fn key_end(s: Seq<char>) -> int {
    run_end(s, 1, is_upper())
}

/// The length of the macro `@KEY.field` that `s` starts with, or 0 when it starts with
/// none. The key is one or more of `A`-`Z`; the field runs up to the next white space.
pub open spec fn macro_len(s: Seq<char>) -> int {
    let k = key_end(s);
    let f = run_end(s, k + 1, is_not_white());
    if s.len() > 0 && s[0] == '@' && 1 < k < s.len() && s[k] == '.' && k + 1 < f <= s.len() {
        f
    } else {
        0
    }
}

/// The markup a resolved macro becomes.
pub open spec fn macro_span(key: Seq<char>, field: Seq<char>, value: Seq<char>) -> Seq<char> {
    "<span class=\"at-macro at-macro-"@ + key + " at-macro-"@ + key + "-"@ + field + "\">"@
        + value + "</span>"@
}

/// What the macro of length `n` at the start of `s` expands to: the field's value in a
/// span when the directory has the key and its user has the field, else the text itself.
pub open spec fn expand_one(d: DirectoryModel, s: Seq<char>, n: int) -> Seq<char> {
    let key = s.subrange(1, key_end(s));
    let field = s.subrange(key_end(s) + 1, n);
    match lookup(d, key) {
        Some(u) => match lookup(u, field) {
            Some(v) => macro_span(key, field, v),
            None => s.take(n),
        },
        None => s.take(n),
    }
}

/// `s` with each macro expanded, scanning left to right: a macro is taken at the first
/// place one starts, and the scan goes on after it.
pub open spec fn expand_macros(d: DirectoryModel, s: Seq<char>) -> Seq<char>
    decreases s.len(),
{
    if s.len() == 0 {
        Seq::empty()
    } else {
        let n = macro_len(s);
        if n > 0 {
            expand_one(d, s, n) + expand_macros(d, s.skip(n))
        } else {
            seq![s[0]] + expand_macros(d, s.skip(1))
        }
    }
}

/// Index just past the run of `A`-`Z` that starts at `from`.
fn upper_run(s: &Vec<char>, from: usize) -> (r: usize)
    requires
        from <= s.len(),
    ensures
        from <= r <= s.len(),
        forall|k: int| from <= k < r ==> is_upper()(s@[k]),
        r == s.len() || !ascii_upper(s@[r as int]),
{
    let mut j = from;
    while j < s.len() && 'A' <= s[j] && s[j] <= 'Z'
        invariant
            from <= j <= s.len(),
            forall|k: int| from <= k < j ==> is_upper()(s@[k]),
        decreases s.len() - j,
    {
        j = j + 1;
    }
    j
}

/// Index just past the run of characters other than white space that starts at `from`.
fn field_run(s: &Vec<char>, from: usize) -> (r: usize)
    requires
        from <= s.len(),
    ensures
        from <= r <= s.len(),
        forall|k: int| from <= k < r ==> is_not_white()(s@[k]),
        r == s.len() || white_space(s@[r as int]),
{
    let mut j = from;
    while j < s.len() && !is_white_space(s[j])
        invariant
            from <= j <= s.len(),
            forall|k: int| from <= k < j ==> is_not_white()(s@[k]),
        decreases s.len() - j,
    {
        j = j + 1;
    }
    j
}

/// The key end and length of the macro at `s[i..]` (length 0 when none starts there).
fn macro_at(s: &Vec<char>, i: usize) -> (r: (usize, usize))
    requires
        i < s.len(),
    ensures
        r.1 == macro_len(s@.skip(i as int)),
        r.1 > 0 ==> r.0 == i + key_end(s@.skip(i as int)),
        r.1 > 0 ==> i + r.1 <= s.len(),
{
    let ghost t = s@.skip(i as int);
    if s[i] != '@' {
        return (0, 0);
    }
    let k = upper_run(s, i + 1);
    proof {
        lemma_run_end(t, 1, k - i, is_upper());
    }
    if k == i + 1 || k == s.len() || s[k] != '.' {
        return (0, 0);
    }
    let f = field_run(s, k + 1);
    proof {
        lemma_run_end(t, k - i + 1, f - i, is_not_white());
    }
    if f == k + 1 {
        return (0, 0);
    }
    (k, f - i)
}

/// `s` with each macro expanded against the directory `config`.
pub fn expand_chars(config: &Config, s: &Vec<char>) -> (r: String)
    ensures
        r@ == expand_macros(config@, s@),
{
    let ghost d = config@;
    let mut out = String::new();
    let mut i: usize = 0;
    assert(s@.skip(0) =~= s@);
    while i < s.len()
        invariant
            i <= s.len(),
            d == config@,
            out@ + expand_macros(d, s@.skip(i as int)) == expand_macros(d, s@),
        decreases s.len() - i,
    {
        let ghost t = s@.skip(i as int);
        let (k, n) = macro_at(s, i);
        if n > 0 {
            let key = string_of(&slice_chars(s, i + 1, k));
            let field = string_of(&slice_chars(s, k + 1, i + n));
            assert(key@ =~= t.subrange(1, key_end(t)));
            assert(field@ =~= t.subrange(key_end(t) + 1, n as int));
            let raw = string_of(&slice_chars(s, i, i + n));
            assert(raw@ =~= t.take(n as int));
            let ghost before = out@;
            match config.get(key.as_str()) {
                Some(user) => match user.field(field.as_str()) {
                    Some(value) => {
                        out.append("<span class=\"at-macro at-macro-");
                        out.append(key.as_str());
                        out.append(" at-macro-");
                        out.append(key.as_str());
                        out.append("-");
                        out.append(field.as_str());
                        out.append("\">");
                        out.append(value.as_str());
                        out.append("</span>");
                        assert(out@ =~= before + macro_span(key@, field@, value@));
                    },
                    None => {
                        out.append(raw.as_str());
                    },
                },
                None => {
                    out.append(raw.as_str());
                },
            }
            assert(out@ == before + expand_one(d, t, n as int));
            assert(t.skip(n as int) =~= s@.skip(i + n));
            i = i + n;
            assert(out@ + expand_macros(d, s@.skip(i as int)) =~= expand_macros(d, s@));
        } else {
            let ghost before = out@;
            push_char(&mut out, s[i]);
            assert(t.skip(1) =~= s@.skip(i + 1));
            i = i + 1;
            assert(out@ + expand_macros(d, s@.skip(i as int)) =~= expand_macros(d, s@));
        }
    }
    assert(s@.skip(i as int) =~= Seq::<char>::empty());
    assert(out@ =~= out@ + Seq::<char>::empty());
    out
}

/// `message` with each `@KEY.field` macro replaced by
/// `<span class="at-macro at-macro-KEY at-macro-KEY-field">value</span>`, where the
/// directory lists `KEY` and its user has `field`; every other macro is left as written.
pub fn convert_at_macros(config: &Config, message: &str) -> (r: String)
    ensures
        r@ == expand_macros(config@, message@),
{
    expand_chars(config, &chars_of(message))
}

/// The text `@KEY.field`.
pub open spec fn macro_text(key: Seq<char>, field: Seq<char>) -> Seq<char> {
    seq!['@'] + key + seq!['.'] + field
}

/// A macro followed by white space, or by nothing, expands on its own: to the field's
/// value in a span where the directory lists the key and its user has the field, and to
/// itself otherwise. What follows it is expanded in turn.
pub proof fn lemma_macro_expands(d: DirectoryModel, key: Seq<char>, field: Seq<char>, rest: Seq<char>)
    requires
        key.len() > 0,
        forall|i: int| 0 <= i < key.len() ==> ascii_upper(#[trigger] key[i]),
        field.len() > 0,
        forall|i: int| 0 <= i < field.len() ==> !white_space(#[trigger] field[i]),
        rest.len() == 0 || white_space(rest[0]),
    ensures
        expand_macros(d, macro_text(key, field) + rest) == match lookup(d, key) {
            Some(u) => match lookup(u, field) {
                Some(v) => macro_span(key, field, v),
                None => macro_text(key, field),
            },
            None => macro_text(key, field),
        } + expand_macros(d, rest),
{
    let s = macro_text(key, field) + rest;
    let k = key.len() as int + 1;
    let n = key.len() as int + 2 + field.len();
    assert forall|i: int| 1 <= i < k implies is_upper()(s[i]) by {
        assert(s[i] == key[i - 1]);
    }
    lemma_run_end(s, 1, k, is_upper());
    assert forall|i: int| k + 1 <= i < n implies is_not_white()(s[i]) by {
        assert(s[i] == field[i - k - 1]);
    }
    if n < s.len() {
        assert(s[n] == rest[0]);
    }
    lemma_run_end(s, k + 1, n, is_not_white());
    assert(macro_len(s) == n);
    assert(s.subrange(1, k) =~= key);
    assert(s.subrange(k + 1, n) =~= field);
    assert(s.take(n) =~= macro_text(key, field));
    assert(s.skip(n) =~= rest);
}

} // verus!
