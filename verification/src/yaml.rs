//! Environment variable interpolation and `.env` parsing.
use vstd::prelude::*;
use crate::env::EnvMap;
use crate::types::views;
use crate::text::{
    chars_of, find, is_ws, lemma_find_is, lemma_find_none, lemma_trim_left_is, lemma_trim_right_is, matches_at,
    replace_all, replace_pair, split_on, string_from_chars, sub_chars, trim, trim_bounds,
};

verus! {

// ============ Character classes ============

/// What `char::is_alphanumeric` returns for `c` (Unicode `Alphabetic` or
/// `Numeric`).
pub uninterp spec fn char_alphanumeric(c: char) -> bool;

/// Calls `char::is_alphanumeric`; its result is named by
/// `char_alphanumeric`, a function of the character alone. Among ASCII
/// characters, exactly the letters and the digits are alphanumeric.
#[verifier::external_body]
fn is_alphanumeric(c: char) -> (r: bool)
    ensures
        r == char_alphanumeric(c),
        (c as u32) < 128 ==> (r <==> ('a' <= c <= 'z' || 'A' <= c <= 'Z' || '0' <= c <= '9')),
{
    c.is_alphanumeric()
}

/// A character that may continue a `$NAME` reference: an alphanumeric
/// character or `_`. Among ASCII characters these are exactly the letters,
/// the digits and `_`; beyond ASCII, what `char::is_alphanumeric` says.
pub open spec fn is_name_char(c: char) -> bool {
    if (c as u32) < 128 {
        'a' <= c <= 'z' || 'A' <= c <= 'Z' || '0' <= c <= '9' || c == '_'
    } else {
        char_alphanumeric(c)
    }
}

// ============ Interpolation: specification ============

/// The length of the run of name characters at the start of `s`.
pub open spec fn name_len(s: Seq<char>) -> nat
    decreases s.len(),
{
    if s.len() > 0 && is_name_char(s[0]) {
        1 + name_len(s.drop_first())
    } else {
        0
    }
}

/// Scanning `t` from `i` with `depth` braces open, the position of the
/// `}` that closes the outermost one.
pub open spec fn close_pos(t: Seq<char>, i: int, depth: nat) -> Option<int>
    decreases t.len() - i,
{
    if i < 0 || i >= t.len() {
        None
    } else if t[i] == '{' {
        close_pos(t, i + 1, depth + 1)
    } else if t[i] == '}' {
        if depth <= 1 {
            Some(i)
        } else {
            close_pos(t, i + 1, (depth - 1) as nat)
        }
    } else {
        close_pos(t, i + 1, depth)
    }
}

/// The text inside `${ ... }` (nested braces kept) and what follows the
/// closing brace; with no closing brace, all of `t` and nothing.
pub open spec fn braced(t: Seq<char>) -> (Seq<char>, Seq<char>) {
    match close_pos(t, 0, 1) {
        Some(i) => (t.take(i), t.skip(i + 1)),
        None => (t, Seq::empty()),
    }
}

/// The value of `name` in `env`, or the empty string.
pub open spec fn lookup(env: Map<Seq<char>, Seq<char>>, name: Seq<char>) -> Seq<char> {
    if env.contains_key(name) {
        env[name]
    } else {
        Seq::empty()
    }
}

/// The expansion of the text inside `${ ... }`: `NAME:-default`,
/// `NAME:+value` or `NAME`.
pub open spec fn expand(expr: Seq<char>, env: Map<Seq<char>, Seq<char>>) -> Seq<char> {
    match find(expr, seq![':', '-']) {
        Some(p) => {
            let v = lookup(env, expr.take(p));
            if v.len() == 0 {
                expr.skip(p + 2)
            } else {
                v
            }
        },
        None => match find(expr, seq![':', '+']) {
            Some(p) => {
                if lookup(env, expr.take(p)).len() != 0 {
                    expr.skip(p + 2)
                } else {
                    Seq::empty()
                }
            },
            None => lookup(env, expr),
        },
    }
}

pub proof fn lemma_close_pos_range(t: Seq<char>, i: int, depth: nat)
    ensures
        close_pos(t, i, depth) matches Some(k) ==> i <= k < t.len(),
    decreases t.len() - i,
{
    if i < 0 || i >= t.len() {
    } else if t[i] == '{' {
        lemma_close_pos_range(t, i + 1, depth + 1);
    } else if t[i] == '}' {
        if depth > 1 {
            lemma_close_pos_range(t, i + 1, (depth - 1) as nat);
        }
    } else {
        lemma_close_pos_range(t, i + 1, depth);
    }
}

pub proof fn lemma_name_len_bound(s: Seq<char>)
    ensures
        name_len(s) <= s.len(),
    decreases s.len(),
{
    if s.len() > 0 && is_name_char(s[0]) {
        lemma_name_len_bound(s.drop_first());
    }
}

/// `input` with `$$`, `$NAME`, `${NAME}`, `${NAME:-default}` and
/// `${NAME:+value}` expanded against `env`; any other `$` is kept.
pub open spec fn interp(s: Seq<char>, env: Map<Seq<char>, Seq<char>>) -> Seq<char>
    decreases s.len(),
{
    if s.len() == 0 {
        Seq::empty()
    } else if s[0] != '$' {
        seq![s[0]] + interp(s.drop_first(), env)
    } else if s.len() == 1 {
        seq!['$']
    } else if s[1] == '{' {
        let t = s.skip(2);
        proof {
            lemma_close_pos_range(t, 0, 1);
        }
        expand(braced(t).0, env) + interp(braced(t).1, env)
    } else if s[1] == '$' {
        seq!['$'] + interp(s.skip(2), env)
    } else if is_name_char(s[1]) {
        let n = name_len(s.drop_first()) as int;
        proof {
            lemma_name_len_bound(s.drop_first());
        }
        lookup(env, s.subrange(1, 1 + n)) + interp(s.skip(1 + n), env)
    } else {
        seq!['$'] + interp(s.drop_first(), env)
    }
}

/// Text without `$` comes out of interpolation unchanged, whatever the
/// environment.
pub proof fn law_interpolate_without_dollar_is_identity(s: Seq<char>, env: Map<Seq<char>, Seq<char>>)
    requires
        !s.contains('$'),
    ensures
        interp(s, env) == s,
    decreases s.len(),
{
    if s.len() > 0 {
        assert(s[0] != '$');
        assert(!s.drop_first().contains('$')) by {
            if s.drop_first().contains('$') {
                let k = choose|k: int| 0 <= k < s.drop_first().len() && s.drop_first()[k] == '$';
                assert(s[k + 1] == '$');
            }
        }
        law_interpolate_without_dollar_is_identity(s.drop_first(), env);
        assert(seq![s[0]] + s.drop_first() =~= s);
    }
}

/// `$$` is an escaped `$`: it comes out as one `$`, and what follows is
/// interpolated on its own.
pub proof fn law_interpolate_escaped_dollar(s: Seq<char>, env: Map<Seq<char>, Seq<char>>)
    ensures
        interp(seq!['$', '$'] + s, env) == seq!['$'] + interp(s, env),
{
    let t = seq!['$', '$'] + s;
    assert(t.skip(2) =~= s);
}

proof fn lemma_name_len_run(name: Seq<char>, t: Seq<char>)
    requires
        forall|i: int| 0 <= i < name.len() ==> is_name_char(#[trigger] name[i]),
        t.len() > 0 ==> !is_name_char(t[0]),
    ensures
        name_len(name + t) == name.len(),
    decreases name.len(),
{
    if name.len() == 0 {
        assert(name + t =~= t);
    } else {
        assert((name + t).drop_first() =~= name.drop_first() + t);
        assert((name + t)[0] == name[0]);
        assert forall|i: int| 0 <= i < name.drop_first().len() implies is_name_char(
            #[trigger] name.drop_first()[i],
        ) by {
            assert(name.drop_first()[i] == name[i + 1]);
        }
        lemma_name_len_run(name.drop_first(), t);
    }
}

/// A bare `$NAME` runs to the first character that is neither
/// alphanumeric nor `_` (so `/`, `-`, `.` or a space end it): it becomes
/// the value of `NAME` (or nothing when unset), and that character and
/// what follows are interpolated on their own.
pub proof fn law_interpolate_bare_name(name: Seq<char>, c: char, rest: Seq<char>, env: Map<Seq<char>, Seq<char>>)
    requires
        name.len() > 0,
        forall|i: int| 0 <= i < name.len() ==> is_name_char(#[trigger] name[i]),
        !is_name_char(c),
    ensures
        interp(seq!['$'] + name + seq![c] + rest, env) == lookup(env, name) + interp(seq![c] + rest, env),
{
    let s = seq!['$'] + name + seq![c] + rest;
    let t = seq![c] + rest;
    assert(s.drop_first() =~= name + t);
    assert(s[1] == name[0]);
    assert(is_name_char(name[0]));
    lemma_name_len_run(name, t);
    assert(t[0] == c);
    let n = name.len() as int;
    assert(s.subrange(1, 1 + n) =~= name);
    assert(s.skip(1 + n) =~= t);
}

/// A bare `$NAME` that ends the text expands to the value of `NAME`, or to
/// nothing when `NAME` is unset: the name runs to the end of the input.
pub proof fn law_interpolate_bare_name_at_end(name: Seq<char>, env: Map<Seq<char>, Seq<char>>)
    requires
        name.len() > 0,
        forall|i: int| 0 <= i < name.len() ==> is_name_char(#[trigger] name[i]),
    ensures
        env.contains_key(name) ==> interp(seq!['$'] + name, env) == env[name],
        !env.contains_key(name) ==> interp(seq!['$'] + name, env) == Seq::<char>::empty(),
{
    let s = seq!['$'] + name;
    assert(s.drop_first() =~= name + Seq::<char>::empty());
    assert(s[1] == name[0]);
    lemma_name_len_run(name, Seq::<char>::empty());
    let n = name.len() as int;
    assert(s.subrange(1, 1 + n) =~= name);
    assert(s.skip(1 + n) =~= Seq::<char>::empty());
    assert(interp(Seq::<char>::empty(), env) == Seq::<char>::empty());
    assert(lookup(env, name) + Seq::<char>::empty() =~= lookup(env, name));
}

/// `w` holds no brace and no colon.
pub open spec fn no_brace_or_colon(w: Seq<char>) -> bool {
    forall|i: int| 0 <= i < w.len() ==> w[i] != '{' && w[i] != '}' && w[i] != ':'
}

proof fn lemma_close_pos_skip(t: Seq<char>, i: int, j: int, depth: nat)
    requires
        0 <= i <= j <= t.len(),
        forall|k: int| i <= k < j ==> t[k] != '{' && t[k] != '}',
    ensures
        close_pos(t, i, depth) == close_pos(t, j, depth),
    decreases j - i,
{
    if i < j {
        lemma_close_pos_skip(t, i + 1, j, depth);
    }
}

/// Braces inside `${NAME:+...}` are matched by depth: with `NAME` set to
/// a non-empty value, `${NAME:+{w}}` gives `{w}`, inner braces and all,
/// and the expression does not end at the first `}`.
pub proof fn law_interpolate_nested_braces(
    name: Seq<char>,
    w: Seq<char>,
    env: Map<Seq<char>, Seq<char>>,
)
    requires
        no_brace_or_colon(name),
        no_brace_or_colon(w),
        env.contains_key(name),
        env[name].len() > 0,
    ensures
        interp(seq!['$', '{'] + name + seq![':', '+', '{'] + w + seq!['}', '}'], env) == seq!['{'] + w
            + seq!['}'],
{
    let s = seq!['$', '{'] + name + seq![':', '+', '{'] + w + seq!['}', '}'];
    let t = name + seq![':', '+', '{'] + w + seq!['}', '}'];
    let n = name.len() as int;
    let m = w.len() as int;
    assert(s.skip(2) =~= t);
    assert(s[0] == '$' && s[1] == '{');
    assert(t.len() == n + m + 5);
    assert(t[n] == ':' && t[n + 1] == '+' && t[n + 2] == '{');
    assert(t[n + m + 3] == '}' && t[n + m + 4] == '}');
    assert forall|k: int| 0 <= k < n implies t[k] != '{' && t[k] != '}' by {
        assert(t[k] == name[k]);
    }
    assert forall|k: int| n + 3 <= k < n + 3 + m implies t[k] != '{' && t[k] != '}' by {
        assert(t[k] == w[k - n - 3]);
    }
    lemma_close_pos_skip(t, 0, n, 1);
    lemma_close_pos_skip(t, n + 3, n + 3 + m, 2);
    assert(close_pos(t, n + m + 4, 1) == Some(n + m + 4));
    assert(close_pos(t, n + m + 3, 2) == Some(n + m + 4));
    assert(close_pos(t, n + 2, 1) == close_pos(t, n + 3, 2));
    assert(close_pos(t, n + 1, 1) == close_pos(t, n + 2, 1));
    assert(close_pos(t, n, 1) == close_pos(t, n + 1, 1));
    assert(close_pos(t, 0, 1) == Some(n + m + 4));
    let expr = t.take(n + m + 4);
    assert(expr =~= name + seq![':', '+', '{'] + w + seq!['}']);
    assert(t.skip(n + m + 5) =~= Seq::<char>::empty());
    assert forall|j: int| 0 <= j implies !matches_at(expr, seq![':', '-'], j) by {
        if matches_at(expr, seq![':', '-'], j) {
            assert(expr.subrange(j, j + 2)[0] == expr[j]);
            assert(expr.subrange(j, j + 2)[1] == expr[j + 1]);
            if j < n {
                assert(expr[j] == name[j]);
            } else if j > n + 2 && j < n + 3 + m {
                assert(expr[j] == w[j - n - 3]);
            }
        }
    }
    lemma_find_none(expr, seq![':', '-']);
    assert(expr.subrange(n, n + 2) =~= seq![':', '+']);
    assert forall|j: int| 0 <= j < n implies !matches_at(expr, seq![':', '+'], j) by {
        if matches_at(expr, seq![':', '+'], j) {
            assert(expr.subrange(j, j + 2)[0] == expr[j]);
            assert(expr[j] == name[j]);
        }
    }
    lemma_find_is(expr, seq![':', '+'], n);
    assert(expr.take(n) =~= name);
    assert(expr.skip(n + 2) =~= seq!['{'] + w + seq!['}']);
    assert(interp(Seq::<char>::empty(), env) == Seq::<char>::empty());
}

/// `s` holds no brace.
pub open spec fn no_brace(s: Seq<char>) -> bool {
    forall|i: int| 0 <= i < s.len() ==> s[i] != '{' && s[i] != '}'
}

/// `s` holds no colon.
pub open spec fn no_colon(s: Seq<char>) -> bool {
    forall|i: int| 0 <= i < s.len() ==> s[i] != ':'
}

proof fn lemma_braced_plain(e: Seq<char>, rest: Seq<char>)
    requires
        no_brace(e),
    ensures
        braced(e + seq!['}'] + rest) == (e, rest),
{
    let t = e + seq!['}'] + rest;
    assert forall|k: int| 0 <= k < e.len() implies t[k] != '{' && t[k] != '}' by {
        assert(t[k] == e[k]);
    }
    lemma_close_pos_skip(t, 0, e.len() as int, 1);
    assert(t[e.len() as int] == '}');
    assert(close_pos(t, 0, 1) == Some(e.len() as int));
    assert(t.take(e.len() as int) =~= e);
    assert(t.skip(e.len() as int + 1) =~= rest);
}

proof fn lemma_interp_braced(e: Seq<char>, rest: Seq<char>, env: Map<Seq<char>, Seq<char>>)
    requires
        no_brace(e),
    ensures
        interp(seq!['$', '{'] + e + seq!['}'] + rest, env) == expand(e, env) + interp(rest, env),
{
    let s = seq!['$', '{'] + e + seq!['}'] + rest;
    assert(s.skip(2) =~= e + seq!['}'] + rest);
    assert(s[0] == '$' && s[1] == '{');
    lemma_braced_plain(e, rest);
}

proof fn lemma_find_pair_after_name(name: Seq<char>, pair: Seq<char>, w: Seq<char>)
    requires
        no_colon(name),
        pair.len() == 2,
        pair[0] == ':',
    ensures
        find(name + pair + w, pair) == Some(name.len() as int),
{
    let e = name + pair + w;
    let n = name.len() as int;
    assert(e.subrange(n, n + 2) =~= pair);
    assert forall|j: int| 0 <= j < n implies !matches_at(e, pair, j) by {
        if matches_at(e, pair, j) {
            assert(e.subrange(j, j + 2)[0] == e[j]);
            assert(e[j] == name[j]);
        }
    }
    lemma_find_is(e, pair, n);
}

proof fn lemma_no_pair(e: Seq<char>, pair: Seq<char>)
    requires
        no_colon(e),
        pair.len() == 2,
        pair[0] == ':',
    ensures
        find(e, pair) is None,
{
    assert forall|j: int| 0 <= j implies !matches_at(e, pair, j) by {
        if matches_at(e, pair, j) {
            assert(e.subrange(j, j + 2)[0] == e[j]);
        }
    }
    lemma_find_none(e, pair);
}

/// `${NAME}` expands to the value of `NAME`, or to nothing when it is
/// unset; what follows the closing brace is interpolated on its own.
pub proof fn law_interpolate_braced_name(name: Seq<char>, rest: Seq<char>, env: Map<Seq<char>, Seq<char>>)
    requires
        no_brace(name),
        no_colon(name),
    ensures
        interp(seq!['$', '{'] + name + seq!['}'] + rest, env) == (if env.contains_key(name) {
            env[name]
        } else {
            Seq::<char>::empty()
        }) + interp(rest, env),
{
    lemma_interp_braced(name, rest, env);
    lemma_no_pair(name, seq![':', '-']);
    lemma_no_pair(name, seq![':', '+']);
}

/// `${NAME:-word}` expands to the value of `NAME` when it is set and not
/// empty, and to `word` otherwise.
pub proof fn law_interpolate_default(
    name: Seq<char>,
    word: Seq<char>,
    rest: Seq<char>,
    env: Map<Seq<char>, Seq<char>>,
)
    requires
        no_brace(name),
        no_colon(name),
        no_brace(word),
    ensures
        interp(seq!['$', '{'] + name + seq![':', '-'] + word + seq!['}'] + rest, env) == (if env.contains_key(
            name,
        ) && env[name].len() > 0 {
            env[name]
        } else {
            word
        }) + interp(rest, env),
{
    let e = name + seq![':', '-'] + word;
    assert(no_brace(e)) by {
        assert forall|i: int| 0 <= i < e.len() implies e[i] != '{' && e[i] != '}' by {
            if i < name.len() {
                assert(e[i] == name[i]);
            } else if i >= name.len() + 2 {
                assert(e[i] == word[i - name.len() - 2]);
            }
        }
    }
    assert(seq!['$', '{'] + name + seq![':', '-'] + word + seq!['}'] + rest =~= seq!['$', '{'] + e + seq!['}']
        + rest);
    lemma_interp_braced(e, rest, env);
    lemma_find_pair_after_name(name, seq![':', '-'], word);
    assert(e.take(name.len() as int) =~= name);
    assert(e.skip(name.len() as int + 2) =~= word);
}

/// `${NAME:+word}` expands to `word` when `NAME` is set and not empty,
/// and to nothing otherwise.
pub proof fn law_interpolate_alternative(
    name: Seq<char>,
    word: Seq<char>,
    rest: Seq<char>,
    env: Map<Seq<char>, Seq<char>>,
)
    requires
        no_brace(name),
        no_colon(name),
        no_brace(word),
        no_colon(word),
    ensures
        interp(seq!['$', '{'] + name + seq![':', '+'] + word + seq!['}'] + rest, env) == (if env.contains_key(
            name,
        ) && env[name].len() > 0 {
            word
        } else {
            Seq::<char>::empty()
        }) + interp(rest, env),
{
    let e = name + seq![':', '+'] + word;
    assert(no_brace(e)) by {
        assert forall|i: int| 0 <= i < e.len() implies e[i] != '{' && e[i] != '}' by {
            if i < name.len() {
                assert(e[i] == name[i]);
            } else if i >= name.len() + 2 {
                assert(e[i] == word[i - name.len() - 2]);
            }
        }
    }
    assert(seq!['$', '{'] + name + seq![':', '+'] + word + seq!['}'] + rest =~= seq!['$', '{'] + e + seq!['}']
        + rest);
    lemma_interp_braced(e, rest, env);
    assert forall|j: int| 0 <= j implies !matches_at(e, seq![':', '-'], j) by {
        if matches_at(e, seq![':', '-'], j) {
            assert(e.subrange(j, j + 2)[0] == e[j]);
            assert(e.subrange(j, j + 2)[1] == e[j + 1]);
            if j < name.len() {
                assert(e[j] == name[j]);
            } else if j >= name.len() + 2 {
                assert(e[j] == word[j - name.len() - 2]);
            }
        }
    }
    lemma_find_none(e, seq![':', '-']);
    lemma_find_pair_after_name(name, seq![':', '+'], word);
    assert(e.take(name.len() as int) =~= name);
    assert(e.skip(name.len() as int + 2) =~= word);
}

// ============ Interpolation: implementation ============

fn lookup_chars(env: &EnvMap, name: Vec<char>) -> (r: Vec<char>)
    requires
        env.wf(),
    ensures
        r@ == lookup(env@, name@),
{
    let key = string_from_chars(name);
    match env.get(key.as_str()) {
        Some(v) => chars_of(v.as_str()),
        None => Vec::new(),
    }
}

/// Reads the text of a `${ ... }` expression from `t`, which starts just
/// after the opening brace.
fn read_until_close(t: &Vec<char>) -> (r: (Vec<char>, Vec<char>))
    ensures
        r.0@ == braced(t@).0,
        r.1@ == braced(t@).1,
{
    let mut k: usize = 0;
    // braces opened inside the expression and not yet closed
    let mut open: usize = 0;
    while k < t.len()
        invariant
            k <= t.len(),
            open <= k,
            close_pos(t@, 0, 1) == close_pos(t@, k as int, (open + 1) as nat),
        decreases t.len() - k,
    {
        if t[k] == '{' {
            open = open + 1;
        } else if t[k] == '}' {
            if open == 0 {
                let expr = sub_chars(t, 0, k);
                let rest = sub_chars(t, k + 1, t.len());
                assert(expr@ =~= t@.take(k as int));
                assert(rest@ =~= t@.skip(k + 1));
                return (expr, rest);
            }
            open = open - 1;
        }
        k = k + 1;
    }
    let expr = sub_chars(t, 0, t.len());
    assert(expr@ =~= t@);
    (expr, Vec::new())
}

/// Reads the name of a `$NAME` reference starting at `v[from]`; returns
/// the position just after it.
fn read_plain_var(v: &Vec<char>, from: usize) -> (r: usize)
    requires
        from <= v.len(),
    ensures
        from <= r <= v.len(),
        r - from == name_len(v@.skip(from as int)),
{
    let mut k = from;
    while k < v.len() && (is_alphanumeric(v[k]) || v[k] == '_')
        invariant
            from <= k <= v.len(),
            name_len(v@.skip(from as int)) == (k - from) + name_len(v@.skip(k as int)),
        decreases v.len() - k,
    {
        assert(v@.skip(k as int).drop_first() =~= v@.skip(k + 1));
        k = k + 1;
    }
    k
}

proof fn lemma_two_match(s: Seq<char>, a: char, b: char, j: int)
    ensures
        matches_at(s, seq![a, b], j) <==> (0 <= j && j + 1 < s.len() && s[j] == a && s[j + 1]
            == b),
{
    if 0 <= j && j + 1 < s.len() && s[j] == a && s[j + 1] == b {
        assert(s.subrange(j, j + 2) =~= seq![a, b]);
    }
    if matches_at(s, seq![a, b], j) {
        assert(s.subrange(j, j + 2)[0] == s[j]);
        assert(s.subrange(j, j + 2)[1] == s[j + 1]);
    }
}

/// The first position of the two-character pattern `a b` in `v`.
fn find_two(v: &Vec<char>, a: char, b: char) -> (r: Option<usize>)
    ensures
        match r {
            Some(p) => find(v@, seq![a, b]) == Some(p as int) && p + 1 < v.len(),
            None => find(v@, seq![a, b]) is None,
        },
{
    let mut i: usize = 0;
    while v.len() >= 2 && i < v.len() - 1
        invariant
            forall|j: int| 0 <= j < i ==> !matches_at(v@, seq![a, b], j),
        decreases v.len() - i,
    {
        proof {
            lemma_two_match(v@, a, b, i as int);
        }
        if v[i] == a && v[i + 1] == b {
            proof {
                lemma_find_is(v@, seq![a, b], i as int);
            }
            return Some(i);
        }
        i = i + 1;
    }
    proof {
        assert forall|j: int| 0 <= j implies !matches_at(v@, seq![a, b], j) by {
            lemma_two_match(v@, a, b, j);
        }
        lemma_find_none(v@, seq![a, b]);
    }
    None
}

fn expand_expr(e: &Vec<char>, env: &EnvMap) -> (r: Vec<char>)
    requires
        env.wf(),
    ensures
        r@ == expand(e@, env@),
{
    match find_two(e, ':', '-') {
        Some(p) => {
            let v = lookup_chars(env, sub_chars(e, 0, p));
            if v.len() == 0 {
                let d = sub_chars(e, p + 2, e.len());
                assert(d@ =~= e@.skip(p + 2));
                d
            } else {
                v
            }
        },
        None => match find_two(e, ':', '+') {
            Some(p) => {
                let v = lookup_chars(env, sub_chars(e, 0, p));
                if v.len() != 0 {
                    let d = sub_chars(e, p + 2, e.len());
                    assert(d@ =~= e@.skip(p + 2));
                    d
                } else {
                    Vec::new()
                }
            },
            None => {
                let all = sub_chars(e, 0, e.len());
                assert(all@ =~= e@);
                lookup_chars(env, all)
            },
        },
    }
}

/// Expands `${VAR}`, `${VAR:-default}`, `${VAR:+value}`, `$VAR` and
/// `$$` in `input`, looking names up in `env` (a missing name reads as
/// the empty string).
pub fn interpolate(input: &str, env: &EnvMap) -> (r: String)
    requires
        env.wf(),
    ensures
        r@ == interp(input@, env@),
{
    let v = chars_of(input);
    let mut out: Vec<char> = Vec::new();
    let mut i: usize = 0;
    assert(v@.skip(0) =~= v@);
    while i < v.len()
        invariant
            i <= v.len(),
            v@ == input@,
            env.wf(),
            out@ + interp(v@.skip(i as int), env@) == interp(v@, env@),
        decreases v.len() - i,
    {
        let ghost s = v@.skip(i as int);
        let ghost before = out@;
        let ch = v[i];
        if ch != '$' {
            out.push(ch);
            i = i + 1;
            assert(s.drop_first() =~= v@.skip(i as int));
        } else if i + 1 == v.len() {
            out.push('$');
            i = i + 1;
            assert(v@.skip(i as int) =~= Seq::<char>::empty());
        } else if v[i + 1] == '{' {
            let t = sub_chars(&v, i + 2, v.len());
            assert(t@ =~= s.skip(2));
            let (expr, rest) = read_until_close(&t);
            let mut expanded = expand_expr(&expr, env);
            out.append(&mut expanded);
            proof {
                lemma_close_pos_range(t@, 0, 1);
            }
            let consumed = v.len() - rest.len();
            assert(rest@ =~= v@.skip(consumed as int));
            i = consumed;
        } else if v[i + 1] == '$' {
            out.push('$');
            i = i + 2;
            assert(s.skip(2) =~= v@.skip(i as int));
        } else if is_alphanumeric(v[i + 1]) || v[i + 1] == '_' {
            let end = read_plain_var(&v, i + 1);
            assert(s.drop_first() =~= v@.skip(i + 1));
            let mut val = lookup_chars(env, sub_chars(&v, i + 1, end));
            assert(s.subrange(1, 1 + (end - (i + 1))) =~= v@.subrange(i + 1, end as int));
            assert(s.skip(1 + (end - (i + 1))) =~= v@.skip(end as int));
            out.append(&mut val);
            i = end;
        } else {
            out.push('$');
            i = i + 1;
            assert(s.drop_first() =~= v@.skip(i as int));
        }
        assert(out@ + interp(v@.skip(i as int), env@) =~= interp(v@, env@));
    }
    assert(v@.skip(i as int) =~= Seq::<char>::empty());
    assert(out@ + Seq::<char>::empty() =~= out@);
    string_from_chars(out)
}

// ============ .env parsing: specification ============

/// The value part of a `.env` line: quotes removed (with `\n` and `\"`
/// unescaped inside double quotes), or an inline ` #` comment stripped.
pub open spec fn dotenv_value(raw: Seq<char>) -> Seq<char> {
    if raw.len() == 0 {
        Seq::empty()
    } else if raw[0] == '"' && raw.last() == '"' && raw.len() >= 2 {
        replace_all(
            replace_all(raw.subrange(1, raw.len() - 1), seq!['\\', 'n'], seq!['\n']),
            seq!['\\', '"'],
            seq!['"'],
        )
    } else if raw[0] == '\'' && raw.last() == '\'' && raw.len() >= 2 {
        raw.subrange(1, raw.len() - 1)
    } else {
        match find(raw, seq![' ', '#']) {
            Some(p) => trim(raw.take(p)),
            None => raw,
        }
    }
}

/// `s` holds no backslash.
pub open spec fn no_backslash(s: Seq<char>) -> bool {
    forall|i: int| 0 <= i < s.len() ==> s[i] != '\\'
}

proof fn lemma_replace_after_plain(a: Seq<char>, rest: Seq<char>, from: Seq<char>, to: Seq<char>)
    requires
        from.len() > 0,
        from[0] == '\\',
        no_backslash(a),
    ensures
        replace_all(a + rest, from, to) == a + replace_all(rest, from, to),
    decreases a.len(),
{
    if a.len() > 0 {
        let s = a + rest;
        assert(s[0] == a[0]);
        if s.len() >= from.len() {
            assert(s.take(from.len() as int)[0] == a[0]);
            assert(s.take(from.len() as int) != from);
            assert(s.drop_first() =~= a.drop_first() + rest);
            lemma_replace_after_plain(a.drop_first(), rest, from, to);
            assert(seq![a[0]] + (a.drop_first() + replace_all(rest, from, to)) =~= a + replace_all(rest, from, to));
        } else {
            assert(rest.len() < from.len());
            assert(a + rest =~= a + replace_all(rest, from, to));
        }
    } else {
        assert(a + rest =~= rest);
        assert(a + replace_all(rest, from, to) =~= replace_all(rest, from, to));
    }
}

proof fn lemma_replace_plain(s: Seq<char>, from: Seq<char>, to: Seq<char>)
    requires
        from.len() > 0,
        from[0] == '\\',
        no_backslash(s),
    ensures
        replace_all(s, from, to) == s,
{
    lemma_replace_after_plain(s, Seq::empty(), from, to);
    assert(s + Seq::<char>::empty() =~= s);
    assert(replace_all(Seq::<char>::empty(), from, to) == Seq::<char>::empty());
}

/// In a double-quoted `.env` value, `\n` becomes a newline: the value
/// `"a\nb"` (with no other backslash) is bound as `a`, a newline, then
/// `b`.
pub proof fn law_dotenv_quoted_newline(a: Seq<char>, b: Seq<char>)
    requires
        no_backslash(a),
        no_backslash(b),
    ensures
        dotenv_value(seq!['"'] + a + seq!['\\', 'n'] + b + seq!['"']) == a + seq!['\n'] + b,
{
    let raw = seq!['"'] + a + seq!['\\', 'n'] + b + seq!['"'];
    let inner = a + seq!['\\', 'n'] + b;
    assert(raw.subrange(1, raw.len() - 1) =~= inner);
    assert(raw[0] == '"');
    assert(raw.last() == '"');
    let nl = seq!['\\', 'n'];
    assert(inner =~= a + (nl + b));
    lemma_replace_after_plain(a, nl + b, nl, seq!['\n']);
    assert((nl + b).take(2) =~= nl);
    assert((nl + b).skip(2) =~= b);
    lemma_replace_plain(b, nl, seq!['\n']);
    let once = a + seq!['\n'] + b;
    assert(replace_all(inner, nl, seq!['\n']) =~= once);
    assert(no_backslash(once)) by {
        assert forall|i: int| 0 <= i < once.len() implies once[i] != '\\' by {
            if i < a.len() {
                assert(once[i] == a[i]);
            } else if i > a.len() {
                assert(once[i] == b[i - a.len() - 1]);
            }
        }
    }
    lemma_replace_plain(once, seq!['\\', '"'], seq!['"']);
}

/// A double-quoted `.env` value with no backslash is bound as the text
/// between the quotes.
pub proof fn law_dotenv_quoted_plain(a: Seq<char>)
    requires
        no_backslash(a),
    ensures
        dotenv_value(seq!['"'] + a + seq!['"']) == a,
{
    let raw = seq!['"'] + a + seq!['"'];
    assert(raw.subrange(1, raw.len() - 1) =~= a);
    lemma_replace_plain(a, seq!['\\', 'n'], seq!['\n']);
    lemma_replace_plain(a, seq!['\\', '"'], seq!['"']);
}

/// One `.env` line applied to the bindings read so far.
pub open spec fn dotenv_line(m: Map<Seq<char>, Seq<char>>, line: Seq<char>) -> Map<
    Seq<char>,
    Seq<char>,
> {
    let l = trim(line);
    if l.len() == 0 || l[0] == '#' {
        m
    } else {
        match find(l, seq!['=']) {
            Some(p) => m.insert(trim(l.take(p)), dotenv_value(trim(l.skip(p + 1)))),
            None => m,
        }
    }
}

/// The lines applied in order; a later binding of a name wins.
pub open spec fn dotenv_fold(lines: Seq<Seq<char>>, m: Map<Seq<char>, Seq<char>>) -> Map<
    Seq<char>,
    Seq<char>,
>
    decreases lines.len(),
{
    if lines.len() == 0 {
        m
    } else {
        dotenv_fold(lines.drop_first(), dotenv_line(m, lines[0]))
    }
}

/// The bindings of a `.env` file. Lines are taken between `\n`
/// characters; the `\r` of a `\r\n` ending is whitespace and goes with
/// the trimming.
pub open spec fn dotenv(content: Seq<char>) -> Map<Seq<char>, Seq<char>> {
    dotenv_fold(split_on(content, '\n'), Map::empty())
}

/// The name that one `.env` line binds, if it binds one: the trimmed text
/// before the first `=` of a trimmed line that is neither blank nor a
/// `#` comment.
pub open spec fn dotenv_key(line: Seq<char>) -> Option<Seq<char>> {
    let l = trim(line);
    if l.len() == 0 || l[0] == '#' {
        None
    } else {
        match find(l, seq!['=']) {
            Some(p) => Some(trim(l.take(p))),
            None => None,
        }
    }
}

proof fn lemma_dotenv_line_keys(m: Map<Seq<char>, Seq<char>>, line: Seq<char>)
    ensures
        forall|k: Seq<char>|
            #[trigger] dotenv_line(m, line).dom().contains(k) <==> (m.dom().contains(k)
                || dotenv_key(line) == Some(k)),
{
}

proof fn lemma_dotenv_fold_keys(lines: Seq<Seq<char>>, m: Map<Seq<char>, Seq<char>>)
    ensures
        forall|k: Seq<char>|
            #[trigger] dotenv_fold(lines, m).dom().contains(k) <==> (m.dom().contains(k) || exists|
                i: int,
            | 0 <= i < lines.len() && #[trigger] dotenv_key(lines[i]) == Some(k)),
    decreases lines.len(),
{
    if lines.len() > 0 {
        let m1 = dotenv_line(m, lines[0]);
        let rest = lines.drop_first();
        lemma_dotenv_line_keys(m, lines[0]);
        lemma_dotenv_fold_keys(rest, m1);
        assert forall|k: Seq<char>| #[trigger]
            dotenv_fold(lines, m).dom().contains(k) <==> (m.dom().contains(k) || exists|i: int|
                0 <= i < lines.len() && #[trigger] dotenv_key(lines[i]) == Some(k)) by {
            assert(dotenv_fold(lines, m) == dotenv_fold(rest, m1));
            assert(dotenv_fold(rest, m1).dom().contains(k) <==> (m1.dom().contains(k) || exists|i: int|
                0 <= i < rest.len() && #[trigger] dotenv_key(rest[i]) == Some(k)));
            assert(m1.dom().contains(k) <==> (m.dom().contains(k) || dotenv_key(lines[0]) == Some(k)));
            if exists|i: int| 0 <= i < rest.len() && #[trigger] dotenv_key(rest[i]) == Some(k) {
                let i = choose|i: int| 0 <= i < rest.len() && #[trigger] dotenv_key(rest[i]) == Some(k);
                assert(rest[i] == lines[i + 1]);
                assert(dotenv_key(lines[i + 1]) == Some(k));
            }
            if exists|i: int| 0 <= i < lines.len() && #[trigger] dotenv_key(lines[i]) == Some(k) {
                let i = choose|i: int| 0 <= i < lines.len() && #[trigger] dotenv_key(lines[i]) == Some(k);
                if i > 0 {
                    assert(rest[i - 1] == lines[i]);
                    assert(dotenv_key(rest[i - 1]) == Some(k));
                }
            }
        }
    }
}

/// The names bound by a `.env` file are exactly the names that its
/// lines bind: blank lines, `#` comments and lines without `=` bind
/// none.
pub proof fn law_dotenv_keys(content: Seq<char>)
    ensures
        forall|k: Seq<char>|
            #[trigger] dotenv(content).dom().contains(k) <==> exists|i: int|
                0 <= i < split_on(content, '\n').len() && #[trigger] dotenv_key(
                    split_on(content, '\n')[i],
                ) == Some(k),
{
    lemma_dotenv_fold_keys(split_on(content, '\n'), Map::empty());
}

/// In a double-quoted `.env` value, `\"` becomes `"`: the value
/// `"a\"b"` (with no other backslash) is bound as `a`, a quote, then `b`.
pub proof fn law_dotenv_quoted_escaped_quote(a: Seq<char>, b: Seq<char>)
    requires
        no_backslash(a),
        no_backslash(b),
    ensures
        dotenv_value(seq!['"'] + a + seq!['\\', '"'] + b + seq!['"']) == a + seq!['"'] + b,
{
    let raw = seq!['"'] + a + seq!['\\', '"'] + b + seq!['"'];
    let q = seq!['\\', '"'];
    let inner = a + q + b;
    assert(raw.subrange(1, raw.len() - 1) =~= inner);
    assert(inner =~= a + (q + b));
    lemma_replace_after_plain(a, q + b, seq!['\\', 'n'], seq!['\n']);
    assert((q + b).take(2) != seq!['\\', 'n']) by {
        assert((q + b).take(2)[1] == '"');
    }
    assert((q + b).drop_first() =~= seq!['"'] + b);
    assert(no_backslash(seq!['"'] + b)) by {
        assert forall|i: int| 0 <= i < (seq!['"'] + b).len() implies (seq!['"'] + b)[i] != '\\' by {
            if i > 0 {
                assert((seq!['"'] + b)[i] == b[i - 1]);
            }
        }
    }
    lemma_replace_plain(seq!['"'] + b, seq!['\\', 'n'], seq!['\n']);
    assert(replace_all(inner, seq!['\\', 'n'], seq!['\n']) =~= a + (seq![q[0]] + (seq!['"'] + b)));
    assert(a + (seq![q[0]] + (seq!['"'] + b)) =~= a + (q + b));
    lemma_replace_after_plain(a, q + b, q, seq!['"']);
    assert((q + b).take(2) =~= q);
    assert((q + b).skip(2) =~= b);
    lemma_replace_plain(b, q, seq!['"']);
    assert(a + (seq!['"'] + b) =~= a + seq!['"'] + b);
}

/// A single-quoted `.env` value is bound as the text between the quotes,
/// exactly as written.
pub proof fn law_dotenv_single_quoted(a: Seq<char>)
    ensures
        dotenv_value(seq!['\''] + a + seq!['\'']) == a,
{
    let raw = seq!['\''] + a + seq!['\''];
    assert(raw.subrange(1, raw.len() - 1) =~= a);
}

/// An unquoted `.env` value ends before an inline ` #` comment: `v #c`
/// is bound as `v`, when `v` holds no `#`, does not start with a quote
/// and neither starts nor ends with whitespace.
pub proof fn law_dotenv_inline_comment(v: Seq<char>, c: Seq<char>)
    requires
        v.len() > 0,
        v[0] != '"',
        v[0] != '\'',
        !is_ws(v[0]),
        !is_ws(v.last()),
        forall|i: int| 0 <= i < v.len() ==> #[trigger] v[i] != '#',
    ensures
        dotenv_value(v + seq![' ', '#'] + c) == v,
{
    let raw = v + seq![' ', '#'] + c;
    let n = v.len() as int;
    assert(raw[0] == v[0]);
    assert(raw.subrange(n, n + 2) =~= seq![' ', '#']);
    assert forall|j: int| 0 <= j < n implies !matches_at(raw, seq![' ', '#'], j) by {
        if matches_at(raw, seq![' ', '#'], j) {
            assert(raw.subrange(j, j + 2)[1] == raw[j + 1]);
            assert(raw.subrange(j, j + 2)[0] == raw[j]);
            if j + 1 < n {
                assert(raw[j + 1] == v[j + 1]);
            } else {
                assert(raw[j] == v[j]);
            }
        }
    }
    lemma_find_is(raw, seq![' ', '#'], n);
    assert(raw.take(n) =~= v);
    lemma_trim_kept(v);
}

proof fn lemma_trim_kept(s: Seq<char>)
    requires
        s.len() > 0,
        !is_ws(s[0]),
        !is_ws(s.last()),
    ensures
        trim(s) == s,
{
    lemma_trim_left_is(s, 0);
    assert(s.skip(0) =~= s);
    lemma_trim_right_is(s, s.len() as int);
    assert(s.take(s.len() as int) =~= s);
}

/// A `.env` file of one line `NAME=VALUE` binds exactly `NAME`, to the
/// value that `VALUE` reads as (see [`law_dotenv_quoted_newline`] and
/// [`law_dotenv_quoted_plain`]), when the name holds no whitespace, `=`
/// or newline and does not start a comment, and the value holds no
/// newline and neither starts nor ends with whitespace.
pub proof fn law_dotenv_one_line(name: Seq<char>, value: Seq<char>)
    requires
        name.len() > 0,
        name[0] != '#',
        forall|i: int| 0 <= i < name.len() ==> !is_ws(#[trigger] name[i]) && name[i] != '=' && name[i] != '\n',
        value.len() > 0,
        !is_ws(value[0]),
        !is_ws(value.last()),
        forall|i: int| 0 <= i < value.len() ==> #[trigger] value[i] != '\n',
    ensures
        dotenv(name + seq!['='] + value) == map![name => dotenv_value(value)],
{
    let line = name + seq!['='] + value;
    let p = name.len() as int;
    assert forall|j: int| 0 <= j implies !matches_at(line, seq!['\n'], j) by {
        lemma_one_match(line, '\n', j);
        if 0 <= j < line.len() {
            if j < p {
                assert(line[j] == name[j]);
            } else if j > p {
                assert(line[j] == value[j - p - 1]);
            }
        }
    }
    lemma_find_none(line, seq!['\n']);
    assert(split_on(line, '\n') == seq![line]);
    assert(seq![line].drop_first() =~= Seq::<Seq<char>>::empty());
    assert(line[0] == name[0]);
    assert(line.last() == value.last());
    lemma_trim_kept(line);
    assert forall|j: int| 0 <= j < p implies !matches_at(line, seq!['='], j) by {
        lemma_one_match(line, '=', j);
        assert(line[j] == name[j]);
    }
    lemma_one_match(line, '=', p);
    lemma_find_is(line, seq!['='], p);
    assert(line.take(p) =~= name);
    assert(line.skip(p + 1) =~= value);
    assert(!is_ws(name[name.len() - 1]));
    lemma_trim_kept(name);
    lemma_trim_kept(value);
    assert(dotenv_fold(Seq::<Seq<char>>::empty(), map![name => dotenv_value(value)]) == map![
        name => dotenv_value(value),
    ]);
    assert(Map::<Seq<char>, Seq<char>>::empty().insert(name, dotenv_value(value)) =~= map![
        name => dotenv_value(value),
    ]);
}

// ============ .env parsing: implementation ============

proof fn lemma_one_match(s: Seq<char>, c: char, j: int)
    ensures
        matches_at(s, seq![c], j) <==> (0 <= j < s.len() && s[j] == c),
{
    if 0 <= j < s.len() && s[j] == c {
        assert(s.subrange(j, j + 1) =~= seq![c]);
    }
    if matches_at(s, seq![c], j) {
        assert(s.subrange(j, j + 1)[0] == s[j]);
    }
}

/// The first position of `c` in `v[lo..hi]`, or `hi`.
fn index_of_in(v: &Vec<char>, lo: usize, hi: usize, c: char) -> (r: usize)
    requires
        lo <= hi <= v.len(),
    ensures
        lo <= r <= hi,
        forall|j: int| lo <= j < r ==> v@[j] != c,
        r < hi ==> v@[r as int] == c,
        find(v@.subrange(lo as int, hi as int), seq![c]) == (if r < hi {
            Some(r - lo)
        } else {
            None::<int>
        }),
{
    let mut k = lo;
    while k < hi && v[k] != c
        invariant
            lo <= k <= hi <= v.len(),
            forall|j: int| lo <= j < k ==> v@[j] != c,
        decreases hi - k,
    {
        k = k + 1;
    }
    proof {
        let s = v@.subrange(lo as int, hi as int);
        assert forall|j: int| 0 <= j < k - lo implies !matches_at(s, seq![c], j) by {
            lemma_one_match(s, c, j);
            assert(s[j] == v@[lo + j]);
        }
        if k < hi {
            lemma_one_match(s, c, k - lo);
            assert(s[k - lo] == v@[k as int]);
            lemma_find_is(s, seq![c], k - lo);
        } else {
            assert forall|j: int| 0 <= j implies !matches_at(s, seq![c], j) by {
                lemma_one_match(s, c, j);
                if j < s.len() {
                    assert(s[j] == v@[lo + j]);
                }
            }
            lemma_find_none(s, seq![c]);
        }
    }
    k
}

fn parse_value(raw: Vec<char>) -> (r: Vec<char>)
    ensures
        r@ == dotenv_value(raw@),
{
    let n = raw.len();
    if n == 0 {
        return Vec::new();
    }
    if raw[0] == '"' && raw[n - 1] == '"' && n >= 2 {
        let inner = sub_chars(&raw, 1, n - 1);
        let a = replace_pair(&inner, '\\', 'n', '\n');
        return replace_pair(&a, '\\', '"', '"');
    }
    if raw[0] == '\'' && raw[n - 1] == '\'' && n >= 2 {
        return sub_chars(&raw, 1, n - 1);
    }
    match find_two(&raw, ' ', '#') {
        Some(p) => {
            let (a, b) = trim_bounds(&raw, 0, p);
            assert(raw@.subrange(0, p as int) =~= raw@.take(p as int));
            sub_chars(&raw, a, b)
        },
        None => raw,
    }
}

/// Parses the bindings of a `.env` file: `KEY=VALUE`, `KEY="VALUE"` or
/// `KEY='VALUE'` per line; blank lines and `#` comments are skipped, and a
/// later binding of a name replaces an earlier one.
pub fn parse_dotenv(content: &str) -> (r: EnvMap)
    ensures
        r.wf(),
        r@ == dotenv(content@),
{
    let v = chars_of(content);
    let mut map = EnvMap::new();
    let mut start: usize = 0;
    assert(v@.skip(0) =~= v@);
    loop
        invariant_except_break
            start <= v.len(),
            v@ == content@,
            map.wf(),
            dotenv_fold(split_on(v@.skip(start as int), '\n'), map@) == dotenv(content@),
        ensures
            map.wf(),
            map@ == dotenv(content@),
        decreases v.len() - start,
    {
        let k = index_of_in(&v, start, v.len(), '\n');
        let ghost t = v@.skip(start as int);
        let ghost line = v@.subrange(start as int, k as int);
        proof {
            assert(t =~= v@.subrange(start as int, v.len() as int));
            if k < v.len() {
                assert(t.take(k - start) =~= line);
                assert(t.skip(k - start + 1) =~= v@.skip(k + 1));
            } else {
                assert(t =~= line);
            }
        }
        let ghost m0 = map@;
        let ghost ls = split_on(t, '\n');
        proof {
            if k < v.len() {
                assert(ls == seq![t.take(k - start)] + split_on(t.skip(k - start + 1), '\n'));
                assert(ls[0] == line);
                assert(ls.drop_first() =~= split_on(v@.skip(k + 1), '\n'));
            } else {
                assert(ls == seq![t]);
                assert(ls[0] == line);
                assert(ls.drop_first() =~= Seq::<Seq<char>>::empty());
            }
        }
        let (a, b) = trim_bounds(&v, start, k);
        let ghost l = v@.subrange(a as int, b as int);
        assert(l == trim(line));
        if a < b && v[a] != '#' {
            let eq = index_of_in(&v, a, b, '=');
            if eq < b {
                let (ka, kb) = trim_bounds(&v, a, eq);
                let (va, vb) = trim_bounds(&v, eq + 1, b);
                let key = string_from_chars(sub_chars(&v, ka, kb));
                let val = string_from_chars(parse_value(sub_chars(&v, va, vb)));
                proof {
                    assert(l.take(eq - a) =~= v@.subrange(a as int, eq as int));
                    assert(l.skip(eq - a + 1) =~= v@.subrange(eq + 1, b as int));
                    assert(l[0] == v@[a as int]);
                    assert(key@ == trim(l.take(eq - a)));
                    assert(val@ == dotenv_value(trim(l.skip(eq - a + 1))));
                }
                map.insert(key, val);
            } else {
                assert(l[0] == v@[a as int]);
            }
        } else {
            if a < b {
                assert(l[0] == v@[a as int]);
            }
        }
        proof {
            assert(map@ == dotenv_line(m0, line));
        }
        if k == v.len() {
            assert(dotenv_fold(ls, m0) == dotenv_fold(ls.drop_first(), map@));
            break;
        }
        start = k + 1;
    }
    map
}

/// The pieces of `s` between occurrences of `sep` (`str::split`).
pub fn split_chars(s: &str, sep: char) -> (r: Vec<String>)
    ensures
        views(r@) == split_on(s@, sep),
{
    let v = chars_of(s);
    let mut out: Vec<String> = Vec::new();
    let mut start: usize = 0;
    assert(v@.skip(0) =~= v@);
    loop
        invariant_except_break
            start <= v.len(),
            v@ == s@,
            views(out@) + split_on(v@.skip(start as int), sep) == split_on(s@, sep),
        ensures
            views(out@) == split_on(s@, sep),
        decreases v.len() - start,
    {
        let k = index_of_in(&v, start, v.len(), sep);
        let ghost t = v@.skip(start as int);
        let ghost piece = v@.subrange(start as int, k as int);
        let ghost pre = views(out@);
        proof {
            assert(t =~= v@.subrange(start as int, v.len() as int));
            if k < v.len() {
                assert(t.take(k - start) =~= piece);
                assert(t.skip(k - start + 1) =~= v@.skip(k + 1));
            } else {
                assert(t =~= piece);
            }
        }
        out.push(string_from_chars(sub_chars(&v, start, k)));
        proof {
            assert(views(out@) =~= pre.push(piece));
        }
        if k == v.len() {
            proof {
                assert(split_on(t, sep) == seq![t]);
                assert(views(out@) =~= pre + split_on(t, sep));
            }
            break;
        }
        proof {
            let ls = split_on(t, sep);
            assert(ls == seq![t.take(k - start)] + split_on(t.skip(k - start + 1), sep));
            assert(views(out@) + split_on(v@.skip(k + 1), sep) =~= pre + ls);
        }
        start = k + 1;
    }
    out
}

// ============ Environment loading ============

/// The environment after the explicit env files `extras`, in order, are
/// written over `base`.
pub open spec fn with_env_files(base: Map<Seq<char>, Seq<char>>, extras: Seq<Seq<char>>) -> Map<
    Seq<char>,
    Seq<char>,
>
    decreases extras.len(),
{
    if extras.len() == 0 {
        base
    } else {
        with_env_files(base, extras.drop_last()).union_prefer_right(dotenv(extras.last()))
    }
}

/// The variables of the default `.env` file, if it was read.
pub open spec fn default_env_map(default_env: Option<Seq<char>>) -> Map<Seq<char>, Seq<char>> {
    match default_env {
        Some(c) => dotenv(c),
        None => Map::empty(),
    }
}

/// The environment of a project: the default `.env`, overridden by every
/// explicit env file in order, all overridden by the process environment.
pub open spec fn loaded_env(
    process: Map<Seq<char>, Seq<char>>,
    default_env: Option<Seq<char>>,
    extras: Seq<Seq<char>>,
) -> Map<Seq<char>, Seq<char>> {
    with_env_files(default_env_map(default_env), extras).union_prefer_right(process)
}

/// Builds a project's environment from the process environment, the text
/// of the default `.env` file if it was read, and the texts of the
/// explicit env files that were read, in order. The process environment
/// takes precedence over the files, and explicit env files override the
/// default `.env`.
pub fn load_env(process: EnvMap, default_env: Option<&str>, extra_env_files: &Vec<String>) -> (r: EnvMap)
    requires
        process.wf(),
    ensures
        r.wf(),
        r@ == loaded_env(process@, opt_chars(default_env), views(extra_env_files@)),
{
    let mut env = EnvMap::new();
    match default_env {
        Some(content) => {
            let parsed = parse_dotenv(content);
            env.merge_over(&parsed);
            assert(env@ =~= default_env_map(opt_chars(default_env)));
        },
        None => {
            assert(env@ =~= default_env_map(opt_chars(default_env)));
        },
    }
    let ghost base = env@;
    let mut i: usize = 0;
    while i < extra_env_files.len()
        invariant
            i <= extra_env_files.len(),
            env.wf(),
            env@ == with_env_files(base, views(extra_env_files@).take(i as int)),
        decreases extra_env_files.len() - i,
    {
        let parsed = parse_dotenv(extra_env_files[i].as_str());
        env.merge_over(&parsed);
        proof {
            let t = views(extra_env_files@).take(i + 1);
            assert(t.drop_last() =~= views(extra_env_files@).take(i as int));
            assert(t.last() == extra_env_files@[i as int]@);
        }
        i = i + 1;
    }
    assert(views(extra_env_files@).take(i as int) =~= views(extra_env_files@));
    env.merge_over(&process);
    env
}

/// The characters of an optional text.
pub open spec fn opt_chars(s: Option<&str>) -> Option<Seq<char>> {
    match s {
        Some(t) => Some(t@),
        None => None,
    }
}

proof fn lemma_env_files_keep(base: Map<Seq<char>, Seq<char>>, extras: Seq<Seq<char>>, k: Seq<char>)
    requires
        forall|i: int| 0 <= i < extras.len() ==> !(#[trigger] dotenv(extras[i])).contains_key(k),
    ensures
        with_env_files(base, extras).contains_key(k) == base.contains_key(k),
        base.contains_key(k) ==> with_env_files(base, extras)[k] == base[k],
    decreases extras.len(),
{
    if extras.len() > 0 {
        let rest = extras.drop_last();
        assert forall|i: int| 0 <= i < rest.len() implies !(#[trigger] dotenv(rest[i])).contains_key(k) by {
            assert(rest[i] == extras[i]);
        }
        assert(!dotenv(extras[extras.len() - 1]).contains_key(k));
        lemma_env_files_keep(base, rest, k);
    }
}

/// Which setting of a variable wins: the process environment; else the
/// last explicit env file that sets it; else the default `.env` file.
pub proof fn law_env_precedence(
    process: Map<Seq<char>, Seq<char>>,
    default_env: Option<Seq<char>>,
    extras: Seq<Seq<char>>,
    k: Seq<char>,
)
    ensures
        process.contains_key(k) ==> loaded_env(process, default_env, extras)[k] == process[k],
        !process.contains_key(k) && extras.len() > 0 && dotenv(extras.last()).contains_key(k)
            ==> loaded_env(process, default_env, extras)[k] == dotenv(extras.last())[k],
        (forall|i: int| 0 <= i < extras.len() ==> !(#[trigger] dotenv(extras[i])).contains_key(k))
            && !process.contains_key(k) && default_env is Some && dotenv(default_env->0).contains_key(k)
            ==> loaded_env(process, default_env, extras)[k] == dotenv(default_env->0)[k],
{
    let base = default_env_map(default_env);
    if forall|i: int| 0 <= i < extras.len() ==> !(#[trigger] dotenv(extras[i])).contains_key(k) {
        lemma_env_files_keep(base, extras, k);
    }
}

} // verus!
