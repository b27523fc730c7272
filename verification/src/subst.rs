//! Variable substitution: replaces `${NAME}` / `${NAME:DEFAULT}` placeholders
//! in a template string against an ordered variable context.
//!
//! A placeholder is `${`, a non-empty run of `A`-`Z`, `0`-`9` or `_`, then
//! either `}` or `:` followed by at least one character other than `}` and a
//! closing `}`.  A name present in the context always resolves to the context
//! value; otherwise the default decides: a default starting with `$` is one
//! level of indirection into the context, a default starting with a quote is
//! stripped of its quotes, any other default is used verbatim (trimmed).
use vstd::prelude::*;

use crate::ordmap::{ctx_contains, ctx_insert, ctx_value, lemma_ctx_lookup, Ctx, OrdMap};
use crate::strutil::{chars_to_string, str_to_chars};

verus! {

pub open spec fn is_name_char(c: char) -> bool {
    ('A' as u32 <= c as u32 && c as u32 <= 'Z' as u32) || ('0' as u32 <= c as u32 && c as u32
        <= '9' as u32) || c == '_'
}

/// ASCII whitespace, as trimmed around defaults.
pub open spec fn is_space_char(c: char) -> bool {
    c == ' ' || c == '\t' || c == '\n' || c == '\r'
}

/// Length of the run of name characters starting at `i`.
pub open spec fn name_run(s: Seq<char>, i: int) -> int
    decreases s.len() - i when 0 <= i <= s.len()
{
    if i < s.len() && is_name_char(s[i]) {
        1 + name_run(s, i + 1)
    } else {
        0
    }
}

pub proof fn lemma_name_run(s: Seq<char>, i: int)
    requires
        0 <= i <= s.len(),
    ensures
        0 <= name_run(s, i),
        i + name_run(s, i) <= s.len(),
        forall|j: int| i <= j < i + name_run(s, i) ==> is_name_char(s[j]),
        i + name_run(s, i) < s.len() ==> !is_name_char(s[i + name_run(s, i)]),
    decreases s.len() - i,
{
    if i < s.len() && is_name_char(s[i]) {
        lemma_name_run(s, i + 1);
    }
}

/// A scan that found name characters at `i..i+k` and a stop at `i+k`
/// has found exactly the run.
pub proof fn lemma_name_run_is(s: Seq<char>, i: int, k: int)
    requires
        0 <= i,
        0 <= k,
        i + k <= s.len(),
        forall|j: int| i <= j < i + k ==> is_name_char(s[j]),
        i + k < s.len() ==> !is_name_char(s[i + k]),
    ensures
        name_run(s, i) == k,
    decreases k,
{
    if k == 0 {
    } else {
        assert(is_name_char(s[i]));
        lemma_name_run_is(s, i + 1, k - 1);
    }
}

/// Index of the first `}` at or after `i`, or `s.len()` if there is none.
pub open spec fn close_pos(s: Seq<char>, i: int) -> int
    decreases s.len() - i when 0 <= i <= s.len()
{
    if i >= s.len() {
        i
    } else if s[i] == '}' {
        i
    } else {
        close_pos(s, i + 1)
    }
}

pub proof fn lemma_close_pos(s: Seq<char>, i: int)
    requires
        0 <= i <= s.len(),
    ensures
        i <= close_pos(s, i) <= s.len(),
        close_pos(s, i) < s.len() ==> s[close_pos(s, i)] == '}',
        forall|j: int| i <= j < close_pos(s, i) ==> s[j] != '}',
    decreases s.len() - i,
{
    if i < s.len() && s[i] != '}' {
        lemma_close_pos(s, i + 1);
    }
}

pub proof fn lemma_close_pos_is(s: Seq<char>, i: int, k: int)
    requires
        0 <= i <= k <= s.len(),
        forall|j: int| i <= j < k ==> s[j] != '}',
        k < s.len() ==> s[k] == '}',
    ensures
        close_pos(s, i) == k,
    decreases k - i,
{
    if i < k {
        lemma_close_pos_is(s, i + 1, k);
    }
}

/// Length of the run of whitespace characters starting at `i`.
pub open spec fn ws_run(s: Seq<char>, i: int) -> int
    decreases s.len() - i when 0 <= i <= s.len()
{
    if i < s.len() && is_space_char(s[i]) {
        1 + ws_run(s, i + 1)
    } else {
        0
    }
}

/// Largest index at most `i` holding a non-whitespace character, or `-1`.
pub open spec fn ws_end(s: Seq<char>, i: int) -> int
    decreases i + 1 when -1 <= i < s.len()
{
    if i < 0 {
        -1
    } else if !is_space_char(s[i]) {
        i
    } else {
        ws_end(s, i - 1)
    }
}

/// Length of the run of `q` characters starting at `i`.
pub open spec fn q_run(s: Seq<char>, i: int, q: char) -> int
    decreases s.len() - i when 0 <= i <= s.len()
{
    if i < s.len() && s[i] == q {
        1 + q_run(s, i + 1, q)
    } else {
        0
    }
}

/// Largest index at most `i` holding a character other than `q`, or `-1`.
pub open spec fn q_end(s: Seq<char>, i: int, q: char) -> int
    decreases i + 1 when -1 <= i < s.len()
{
    if i < 0 {
        -1
    } else if s[i] != q {
        i
    } else {
        q_end(s, i - 1, q)
    }
}

/// `s` without its leading and trailing whitespace.
pub open spec fn trim_ws(s: Seq<char>) -> Seq<char> {
    let a = ws_run(s, 0);
    let b = ws_end(s, s.len() - 1);
    if a > b {
        Seq::empty()
    } else {
        s.subrange(a, b + 1)
    }
}

/// `s` without every leading and trailing occurrence of `q`.
pub open spec fn strip_quotes(s: Seq<char>, q: char) -> Seq<char> {
    let a = q_run(s, 0, q);
    let b = q_end(s, s.len() - 1, q);
    if a > b {
        Seq::empty()
    } else {
        s.subrange(a, b + 1)
    }
}

pub proof fn lemma_ws_run_is(s: Seq<char>, i: int, k: int)
    requires
        0 <= i,
        0 <= k,
        i + k <= s.len(),
        forall|j: int| i <= j < i + k ==> is_space_char(s[j]),
        i + k < s.len() ==> !is_space_char(s[i + k]),
    ensures
        ws_run(s, i) == k,
    decreases k,
{
    if k > 0 {
        assert(is_space_char(s[i]));
        lemma_ws_run_is(s, i + 1, k - 1);
    }
}

pub proof fn lemma_ws_end_is(s: Seq<char>, i: int, k: int)
    requires
        -1 <= k <= i < s.len() || (k == -1 && i == -1 && s.len() == 0),
        forall|j: int| k < j <= i ==> is_space_char(s[j]),
        k >= 0 ==> !is_space_char(s[k]),
    ensures
        ws_end(s, i) == k,
    decreases i - k,
{
    if i > k {
        assert(is_space_char(s[i]));
        lemma_ws_end_is(s, i - 1, k);
    }
}

pub proof fn lemma_q_run_is(s: Seq<char>, i: int, k: int, q: char)
    requires
        0 <= i,
        0 <= k,
        i + k <= s.len(),
        forall|j: int| i <= j < i + k ==> s[j] == q,
        i + k < s.len() ==> s[i + k] != q,
    ensures
        q_run(s, i, q) == k,
    decreases k,
{
    if k > 0 {
        lemma_q_run_is(s, i + 1, k - 1, q);
    }
}

pub proof fn lemma_q_end_is(s: Seq<char>, i: int, k: int, q: char)
    requires
        -1 <= k <= i < s.len() || (k == -1 && i == -1 && s.len() == 0),
        forall|j: int| k < j <= i ==> s[j] == q,
        k >= 0 ==> s[k] != q,
    ensures
        q_end(s, i, q) == k,
    decreases i - k,
{
    if i > k {
        lemma_q_end_is(s, i - 1, k, q);
    }
}

/// The fallback value computed from a placeholder default: one level of
/// indirection for `$`-defaults, quote stripping, else the trimmed text.
pub open spec fn default_value(d: Seq<char>, ctx: Ctx) -> Seq<char> {
    let t = trim_ws(d);
    if t.len() > 0 && t[0] == '$' {
        let vn = t.subrange(1, t.len() as int);
        if ctx_contains(ctx, vn) {
            trim_ws(ctx_value(ctx, vn))
        } else {
            Seq::empty()
        }
    } else if t.len() > 0 && t[0] == '"' {
        strip_quotes(t, '"')
    } else if t.len() > 0 && t[0] == '\'' {
        strip_quotes(t, '\'')
    } else {
        t
    }
}

/// What one placeholder occurrence resolves to: the context value when the
/// name is bound, the default's value otherwise.
pub open spec fn resolve_ph(name: Seq<char>, d: Option<Seq<char>>, ctx: Ctx) -> Seq<char> {
    if ctx_contains(ctx, name) {
        ctx_value(ctx, name)
    } else {
        match d {
            None => Seq::empty(),
            Some(dd) => default_value(dd, ctx),
        }
    }
}

/// Whether a placeholder occurrence starts at position `p` of `s`.
pub open spec fn ph_match_at(s: Seq<char>, p: int) -> bool {
    let nl = name_run(s, p + 2);
    &&& 0 <= p
    &&& p + 2 <= s.len()
    &&& s[p] == '$'
    &&& s[p + 1] == '{'
    &&& nl >= 1
    &&& p + 2 + nl < s.len()
    &&& (s[p + 2 + nl] == '}' || (s[p + 2 + nl] == ':' && {
        let c = close_pos(s, p + 3 + nl);
        c < s.len() && c > p + 3 + nl
    }))
}

pub open spec fn ph_name(s: Seq<char>, p: int) -> Seq<char> {
    s.subrange(p + 2, p + 2 + name_run(s, p + 2))
}

pub open spec fn ph_default(s: Seq<char>, p: int) -> Option<Seq<char>> {
    let nl = name_run(s, p + 2);
    if s[p + 2 + nl] == '}' {
        None
    } else {
        Some(s.subrange(p + 3 + nl, close_pos(s, p + 3 + nl)))
    }
}

/// Total length of the placeholder occurrence starting at `p`.
pub open spec fn ph_len(s: Seq<char>, p: int) -> int {
    let nl = name_run(s, p + 2);
    if s[p + 2 + nl] == '}' {
        nl + 3
    } else {
        close_pos(s, p + 3 + nl) + 1 - p
    }
}

pub proof fn lemma_ph_len(s: Seq<char>, p: int)
    requires
        ph_match_at(s, p),
    ensures
        3 < ph_len(s, p),
        p + ph_len(s, p) <= s.len(),
{
    lemma_name_run(s, p + 2);
    let nl = name_run(s, p + 2);
    if s[p + 2 + nl] == ':' {
        lemma_close_pos(s, p + 3 + nl);
    }
}

/// The substitution result for the suffix of `s` that starts at `i`: a single
/// left-to-right pass, replacing each placeholder occurrence and copying every
/// other character.
pub open spec fn subst_from(s: Seq<char>, i: int, ctx: Ctx) -> Seq<char>
    decreases s.len() - i when 0 <= i <= s.len() via subst_from_decreases
{
    if i >= s.len() {
        Seq::empty()
    } else if ph_match_at(s, i) {
        resolve_ph(ph_name(s, i), ph_default(s, i), ctx) + subst_from(s, i + ph_len(s, i), ctx)
    } else {
        seq![s[i]] + subst_from(s, i + 1, ctx)
    }
}

#[via_fn]
proof fn subst_from_decreases(s: Seq<char>, i: int, ctx: Ctx) {
    if 0 <= i < s.len() && ph_match_at(s, i) {
        lemma_ph_len(s, i);
    }
}

/// The whole-string substitution result.
pub open spec fn subst_spec(s: Seq<char>, ctx: Ctx) -> Seq<char> {
    subst_from(s, 0, ctx)
}

fn is_name_char_x(c: char) -> (r: bool)
    ensures
        r == is_name_char(c),
{
    (c as u32 >= 'A' as u32 && c as u32 <= 'Z' as u32) || (c as u32 >= '0' as u32 && c as u32
        <= '9' as u32) || c == '_'
}

fn is_space_char_x(c: char) -> (r: bool)
    ensures
        r == is_space_char(c),
{
    c == ' ' || c == '\t' || c == '\n' || c == '\r'
}

/// Copies `v[a..b]` into a fresh vector.
pub(crate) fn copy_range(v: &Vec<char>, a: usize, b: usize) -> (r: Vec<char>)
    requires
        a <= b <= v@.len(),
    ensures
        r@ == v@.subrange(a as int, b as int),
{
    let mut r: Vec<char> = Vec::new();
    let mut i: usize = a;
    while i < b
        invariant
            a <= i <= b <= v@.len(),
            r@ =~= v@.subrange(a as int, i as int),
        decreases b - i,
    {
        r.push(v[i]);
        proof {
            assert(r@ =~= v@.subrange(a as int, i + 1));
        }
        i = i + 1;
    }
    proof {
        assert(r@ =~= v@.subrange(a as int, b as int));
    }
    r
}

/// Removes the leading and trailing whitespace characters.
fn trim_spaces(v: &Vec<char>) -> (r: Vec<char>)
    ensures
        r@ == trim_ws(v@),
{
    let n = v.len();
    let mut a: usize = 0;
    while a < n && is_space_char_x(v[a])
        invariant
            a <= n,
            n == v@.len(),
            forall|j: int| 0 <= j < a ==> is_space_char(v@[j]),
        decreases n - a,
    {
        a = a + 1;
    }
    proof {
        lemma_ws_run_is(v@, 0, a as int);
    }
    if a == n {
        // all whitespace
        proof {
            lemma_ws_end_is(v@, n - 1, -1);
        }
        let r: Vec<char> = Vec::new();
        proof {
            assert(r@ =~= Seq::<char>::empty());
        }
        r
    } else {
        let mut b: usize = n - 1;
        while b > a && is_space_char_x(v[b])
            invariant
                a <= b < n,
                n == v@.len(),
                !is_space_char(v@[a as int]),
                forall|j: int| b < j < n ==> is_space_char(v@[j]),
            decreases b,
        {
            b = b - 1;
        }
        proof {
            lemma_ws_end_is(v@, n - 1, b as int);
        }
        copy_range(v, a, b + 1)
    }
}

/// Removes every leading and trailing occurrence of the character `q`.
fn strip_char(v: &Vec<char>, q: char) -> (r: Vec<char>)
    ensures
        r@ == strip_quotes(v@, q),
{
    let n = v.len();
    let mut a: usize = 0;
    while a < n && v[a] == q
        invariant
            a <= n,
            n == v@.len(),
            forall|j: int| 0 <= j < a ==> v@[j] == q,
        decreases n - a,
    {
        a = a + 1;
    }
    proof {
        lemma_q_run_is(v@, 0, a as int, q);
    }
    if a == n {
        proof {
            lemma_q_end_is(v@, n - 1, -1, q);
        }
        let r: Vec<char> = Vec::new();
        proof {
            assert(r@ =~= Seq::<char>::empty());
        }
        r
    } else {
        let mut b: usize = n - 1;
        while b > a && v[b] == q
            invariant
                a <= b < n,
                n == v@.len(),
                v@[a as int] != q,
                forall|j: int| b < j < n ==> v@[j] == q,
            decreases b,
        {
            b = b - 1;
        }
        proof {
            lemma_q_end_is(v@, n - 1, b as int, q);
        }
        copy_range(v, a, b + 1)
    }
}

/// Computes the fallback value of a placeholder default.
fn eval_default(d: &Vec<char>, variables: &OrdMap<String>) -> (r: Vec<char>)
    requires
        variables.wf(),
    ensures
        r@ == default_value(d@, variables.ctx()),
{
    let t = trim_spaces(d);
    if t.len() > 0 && t[0] == '$' {
        let vn = copy_range(&t, 1, t.len());
        let vns = chars_to_string(&vn);
        proof {
            lemma_ctx_lookup(variables, vns@);
        }
        match variables.get(vns.as_str()) {
            Some(v) => {
                let vc = str_to_chars(v.as_str());
                trim_spaces(&vc)
            },
            None => {
                let r: Vec<char> = Vec::new();
                proof {
                    assert(r@ =~= Seq::<char>::empty());
                }
                r
            },
        }
    } else if t.len() > 0 && t[0] == '"' {
        strip_char(&t, '"')
    } else if t.len() > 0 && t[0] == '\'' {
        strip_char(&t, '\'')
    } else {
        t
    }
}

/// Appends all of `src` to `dst`.
fn extend_chars(dst: &mut Vec<char>, src: &Vec<char>)
    ensures
        final(dst)@ == old(dst)@ + src@,
{
    let mut i: usize = 0;
    while i < src.len()
        invariant
            i <= src@.len(),
            dst@ =~= old(dst)@ + src@.subrange(0, i as int),
        decreases src.len() - i,
    {
        dst.push(src[i]);
        proof {
            assert(dst@ =~= old(dst)@ + src@.subrange(0, i + 1));
        }
        i = i + 1;
    }
    proof {
        assert(dst@ =~= old(dst)@ + src@);
    }
}

/// Replaces every placeholder occurrence in `content` against `variables`,
/// in one left-to-right pass.
pub fn subst_vars(content: &str, variables: &OrdMap<String>) -> (r: String)
    requires
        variables.wf(),
    ensures
        r@ == subst_spec(content@, variables.ctx()),
{
    let cs = str_to_chars(content);
    let n = cs.len();
    let mut out: Vec<char> = Vec::new();
    let mut i: usize = 0;
    while i < n
        invariant
            variables.wf(),
            i <= n,
            n == cs@.len(),
            cs@ == content@,
            out@ + subst_from(cs@, i as int, variables.ctx()) == subst_from(cs@, 0, variables.ctx()),
        decreases n - i,
    {
        let ghost prev = out@;
        let mut matched = false;
        if cs[i] == '$' && i + 1 < n && cs[i + 1] == '{' {
            // measure the name run
            let mut k: usize = i + 2;
            while k < n && is_name_char_x(cs[k])
                invariant
                    i + 2 <= k <= n,
                    n == cs@.len(),
                    forall|j: int| i + 2 <= j < k ==> is_name_char(cs@[j]),
                decreases n - k,
            {
                k = k + 1;
            }
            proof {
                lemma_name_run_is(cs@, i + 2, k - (i + 2));
            }
            let nl = k - (i + 2);
            if nl >= 1 && k < n {
                if cs[k] == '}' {
                    // ${NAME}
                    let name = copy_range(&cs, i + 2, k);
                    let names = chars_to_string(&name);
                    proof {
                        assert(ph_match_at(cs@, i as int));
                        assert(ph_name(cs@, i as int) == names@);
                        assert(ph_default(cs@, i as int) is None);
                        assert(ph_len(cs@, i as int) == nl + 3);
                    }
                    proof {
                        lemma_ctx_lookup(variables, names@);
                    }
                    match variables.get(names.as_str()) {
                        Some(v) => {
                            let vc = str_to_chars(v.as_str());
                            extend_chars(&mut out, &vc);
                        },
                        None => {},
                    }
                    proof {
                        assert(out@ == prev + resolve_ph(
                            ph_name(cs@, i as int),
                            ph_default(cs@, i as int),
                            variables.ctx(),
                        ));
                    }
                    i = i + nl + 3;
                    matched = true;
                } else if cs[k] == ':' {
                    // find the closing brace
                    let mut c: usize = k + 1;
                    while c < n && cs[c] != '}'
                        invariant
                            k + 1 <= c <= n,
                            n == cs@.len(),
                            forall|j: int| k + 1 <= j < c ==> cs@[j] != '}',
                        decreases n - c,
                    {
                        c = c + 1;
                    }
                    proof {
                        lemma_close_pos_is(cs@, k + 1 as int, c as int);
                    }
                    if c < n && c > k + 1 {
                        // ${NAME:DEFAULT}
                        let name = copy_range(&cs, i + 2, k);
                        let names = chars_to_string(&name);
                        let dflt = copy_range(&cs, k + 1, c);
                        proof {
                            assert(ph_match_at(cs@, i as int));
                            assert(ph_name(cs@, i as int) == names@);
                            assert(ph_default(cs@, i as int) == Some(dflt@));
                            assert(ph_len(cs@, i as int) == c + 1 - i);
                        }
                        proof {
                        lemma_ctx_lookup(variables, names@);
                    }
                    match variables.get(names.as_str()) {
                            Some(v) => {
                                let vc = str_to_chars(v.as_str());
                                extend_chars(&mut out, &vc);
                            },
                            None => {
                                let dv = eval_default(&dflt, variables);
                                extend_chars(&mut out, &dv);
                            },
                        }
                        proof {
                            assert(out@ == prev + resolve_ph(
                                ph_name(cs@, i as int),
                                ph_default(cs@, i as int),
                                variables.ctx(),
                            ));
                        }
                        i = c + 1;
                        matched = true;
                    } else {
                        proof {
                            assert(!ph_match_at(cs@, i as int));
                        }
                    }
                } else {
                    proof {
                        assert(!ph_match_at(cs@, i as int));
                    }
                }
            } else {
                proof {
                    assert(!ph_match_at(cs@, i as int));
                }
            }
        } else {
            proof {
                assert(!ph_match_at(cs@, i as int));
            }
        }
        if !matched {
            out.push(cs[i]);
            proof {
                assert(out@ =~= prev + seq![cs@[i as int]]);
            }
            i = i + 1;
        }
    }
    proof {
        assert(subst_from(cs@, n as int, variables.ctx()) == Seq::<char>::empty());
        assert(out@ + Seq::<char>::empty() =~= out@);
    }
    chars_to_string(&out)
}

/// The context after inserting, for each position from `i` on, the key at
/// that position bound to its value substituted against the context built so
/// far: one left-to-right layering pass.
pub open spec fn insert_all_subst(c: Ctx, keys: Seq<Seq<char>>, vals: Seq<Seq<char>>, i: int) -> Ctx
    decreases keys.len() - i when 0 <= i <= keys.len()
{
    if i >= keys.len() {
        c
    } else {
        insert_all_subst(ctx_insert(c, keys[i], subst_spec(vals[i], c)), keys, vals, i + 1)
    }
}

/// Inserts every variable of `vars`, in declaration order, with its value
/// substituted against the context accumulated so far.
pub fn insert_vars_subst(ctx: &mut OrdMap<String>, vars: &OrdMap<String>)
    requires
        old(ctx).wf(),
        vars.wf(),
    ensures
        final(ctx).wf(),
        final(ctx).ctx() == insert_all_subst(
            old(ctx).ctx(),
            vars.key_seq(),
            crate::ordmap::str_views(vars.val_seq()),
            0,
        ),
{
    let ghost keys = vars.key_seq();
    let ghost vals = crate::ordmap::str_views(vars.val_seq());
    let n = vars.len();
    let mut i: usize = 0;
    while i < n
        invariant
            ctx.wf(),
            vars.wf(),
            i <= n,
            n == keys.len(),
            keys == vars.key_seq(),
            vals == crate::ordmap::str_views(vars.val_seq()),
            insert_all_subst(ctx.ctx(), keys, vals, i as int) == insert_all_subst(
                old(ctx).ctx(),
                keys,
                vals,
                0,
            ),
        decreases n - i,
    {
        let ghost before = *ctx;
        let value = subst_vars(vars.val_at(i).as_str(), ctx);
        let ghost gval = value;
        let k = vars.key_at(i).clone();
        ctx.insert(k, value);
        proof {
            crate::ordmap::lemma_ctx_insert(&before, ctx, keys[i as int], gval);
            assert(ctx.ctx() == ctx_insert(before.ctx(), keys[i as int], subst_spec(vals[i as int], before.ctx())));
        }
        i = i + 1;
    }
}

/// Law: a name bound in the context always resolves to the context value —
/// for a template that is a single placeholder, the result is exactly that
/// value, whatever default the placeholder carries.
pub proof fn lemma_context_wins(s: Seq<char>, ctx: Ctx)
    requires
        ph_match_at(s, 0),
        ph_len(s, 0) == s.len(),
        ctx_contains(ctx, ph_name(s, 0)),
    ensures
        subst_spec(s, ctx) == ctx_value(ctx, ph_name(s, 0)),
{
    lemma_ph_len(s, 0);
    assert(subst_from(s, s.len() as int, ctx) == Seq::<char>::empty());
    assert(ctx_value(ctx, ph_name(s, 0)) + Seq::<char>::empty() =~= ctx_value(ctx, ph_name(s, 0)));
}

} // verus!
