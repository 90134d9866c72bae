//! Substitution of `$NAME` and `${NAME}` tokens by the values of variables.
use vstd::prelude::*;
use crate::config::{Pattern, capture_views, regex_captures, regex_valid};
use crate::error::LadeError;
use crate::maps::{StrMap, map_of};

verus! {

/// The tokens: a `$`, an optional `{`, a name of word characters and an
/// optional `}`.
pub open spec fn token_pattern() -> Seq<char> {
    r"\$\{?(\w+)\}?"@
}

/// The first position at or after `i` where `t` occurs in `s`.
pub open spec fn find_from(s: Seq<char>, t: Seq<char>, i: int) -> Option<int>
    decreases s.len() - i,
{
    if i < 0 || i + t.len() > s.len() {
        None
    } else if t.len() == 0 || s.subrange(i, i + t.len()) == t {
        Some(i)
    } else {
        find_from(s, t, i + 1)
    }
}

/// The value of a variable, or nothing where it is not set.
pub open spec fn var_value(vars: Map<Seq<char>, String>, name: Option<Seq<char>>) -> Seq<char> {
    match name {
        Some(n) => if vars.contains_key(n) {
            vars[n]@
        } else {
            Seq::empty()
        },
        None => Seq::empty(),
    }
}

/// `s` from position `i` on, with each of `toks` (a token's text and name),
/// in turn, replaced where it next occurs by its variable's value; text
/// between tokens is kept, and substituted text is not scanned again.
pub open spec fn substituted(
    s: Seq<char>,
    toks: Seq<(Seq<char>, Option<Seq<char>>)>,
    i: int,
    vars: Map<Seq<char>, String>,
) -> Seq<char>
    decreases toks.len(),
{
    if i < 0 || i > s.len() {
        Seq::empty()
    } else if toks.len() == 0 {
        s.subrange(i, s.len() as int)
    } else {
        match find_from(s, toks[0].0, i) {
            Some(p) => s.subrange(i, p) + var_value(vars, toks[0].1) + substituted(
                s,
                toks.drop_first(),
                p + toks[0].0.len(),
                vars,
            ),
            None => s.subrange(i, s.len() as int),
        }
    }
}

/// `s` with each token the regular expression finds replaced by the value of
/// its variable, or by nothing where the variable is not set.
pub open spec fn expand(s: Seq<char>, vars: Map<Seq<char>, String>) -> Seq<char> {
    substituted(s, regex_captures(token_pattern(), s), 0, vars)
}

/// The first position at or after `i` where `t` occurs in `s`.
fn find(s: &str, n: usize, t: &str, i: usize) -> (r: Option<usize>)
    requires
        n == s@.len(),
        i <= n,
    ensures
        match r {
            Some(p) => find_from(s@, t@, i as int) == Some(p as int) && i <= p && p + t@.len() <= n,
            None => find_from(s@, t@, i as int) is None,
        },
{
    let m = t.unicode_len();
    if m == 0 {
        return Some(i);
    }
    let mut p = i;
    while p <= n && m <= n - p
        invariant
            n == s@.len(),
            m == t@.len(),
            m > 0,
            i <= p,
            find_from(s@, t@, i as int) == find_from(s@, t@, p as int),
        decreases n - p + 1,
    {
        if crate::text::str_eq(s.substring_char(p, p + m), t) {
            return Some(p);
        }
        p = p + 1;
    }
    None
}

/// Replaces, in turn, each token of `tokens` (its text and its name) where it
/// next occurs in `value` by the value of the variable it names.
pub fn substitute_tokens(
    value: &str,
    tokens: &Vec<(String, Option<String>)>,
    existing_vars: &StrMap<String>,
) -> (r: String)
    requires
        existing_vars.wf(),
    ensures
        r@ == substituted(value@, capture_views(tokens@), 0, existing_vars@),
{
    let ghost toks = capture_views(tokens@);
    let n = value.unicode_len();
    let mut out = String::new();
    let mut i: usize = 0;
    let mut k: usize = 0;
    proof {
        assert(toks.skip(0) =~= toks);
    }
    while k < tokens.len()
        invariant
            n == value@.len(),
            toks == capture_views(tokens@),
            existing_vars.wf(),
            i <= n,
            k <= tokens@.len(),
            substituted(value@, toks, 0, existing_vars@) == out@ + substituted(
                value@,
                toks.skip(k as int),
                i as int,
                existing_vars@,
            ),
        decreases tokens@.len() - k,
    {
        let ghost rest = toks.skip(k as int);
        proof {
            assert(rest[0] == toks[k as int]);
            assert(rest.drop_first() =~= toks.skip(k + 1));
        }
        let text = tokens[k].0.as_str();
        match find(value, n, text, i) {
            Some(p) => {
                let ghost before = out@;
                out.append(value.substring_char(i, p));
                let ghost mid = out@;
                match &tokens[k].1 {
                    Some(name) => match existing_vars.get(name.as_str()) {
                        Some(v) => out.append(v.as_str()),
                        None => {},
                    },
                    None => {},
                }
                proof {
                    assert(out@ =~= before + value@.subrange(i as int, p as int) + var_value(
                        existing_vars@,
                        rest[0].1,
                    ));
                }
                i = p + text.unicode_len();
                k = k + 1;
            },
            None => {
                out.append(value.substring_char(i, n));
                return out;
            },
        }
    }
    proof {
        assert(toks.skip(k as int).len() == 0);
    }
    out.append(value.substring_char(i, n));
    out
}

/// Replaces each `$NAME` or `${NAME}` in `value` by the variable's value in
/// `existing_vars`, or by nothing where it is not set. Substituted text is
/// not scanned again. Fails only if the token pattern does not compile.
pub fn resolve_one(value: &str, existing_vars: &StrMap<String>) -> (r: Result<String, LadeError>)
    requires
        existing_vars.wf(),
    ensures
        r is Ok <==> regex_valid(token_pattern()),
        r matches Ok(s) ==> s@ == expand(value@, existing_vars@),
        r matches Err(e) ==> e is InvalidPattern,
{
    match Pattern::new(r"\$\{?(\w+)\}?") {
        Some(tokens) => {
            let found = tokens.captures(value);
            Ok(substitute_tokens(value, &found, existing_vars))
        },
        None => Err(LadeError::InvalidPattern(String::from_str(r"\$\{?(\w+)\}?"))),
    }
}

/// Substitutes variables in each value of `kvs`, keeping its keys.
pub fn resolve(kvs: &StrMap<String>, existing_vars: &StrMap<String>) -> (r: Result<
    StrMap<String>,
    LadeError,
>)
    requires
        kvs.wf(),
        existing_vars.wf(),
    ensures
        r is Ok <==> regex_valid(token_pattern()),
        r matches Ok(m) ==> m.wf() && m@.dom() == kvs@.dom() && forall|k: Seq<char>| #[trigger]
            m@.contains_key(k) ==> m@[k]@ == expand(kvs@[k]@, existing_vars@),
        r matches Err(e) ==> e is InvalidPattern,
{
    broadcast use StrMap::lemma_view_is_pairs, StrMap::lemma_pairs_distinct;

    let tokens = match Pattern::new(r"\$\{?(\w+)\}?") {
        Some(p) => p,
        None => {
            return Err(LadeError::InvalidPattern(String::from_str(r"\$\{?(\w+)\}?")));
        },
    };
    let mut m: StrMap<String> = StrMap::new();
    let mut i: usize = 0;
    while i < kvs.len()
        invariant
            m.wf(),
            kvs.wf(),
            existing_vars.wf(),
            tokens.source_view() == token_pattern(),
            i <= kvs.pairs().len(),
            forall|k: Seq<char>| #[trigger]
                m@.contains_key(k) == map_of(kvs.pairs().take(i as int)).contains_key(k),
            forall|k: Seq<char>| #[trigger]
                m@.contains_key(k) ==> m@[k]@ == expand(
                    map_of(kvs.pairs().take(i as int))[k]@,
                    existing_vars@,
                ),
        decreases kvs.pairs().len() - i,
    {
        let (k, v) = kvs.entry(i);
        let found = tokens.captures(v.as_str());
        let x = substitute_tokens(v.as_str(), &found, existing_vars);
        proof {
            assert(kvs.pairs().take((i + 1) as int).drop_last() =~= kvs.pairs().take(i as int));
        }
        m.insert(String::from_str(k.as_str()), x);
        i = i + 1;
    }
    proof {
        assert(kvs.pairs().take(i as int) =~= kvs.pairs());
        assert(m@.dom() =~= kvs@.dom());
    }
    Ok(m)
}

} // verus!
