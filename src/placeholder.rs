//! Placeholder expansion: `${field}` tokens in a template are replaced by the
//! build metadata they name, in a single left-to-right pass.

use vstd::prelude::*;
use vstd::string::*;

use crate::text::same_text;

verus! {

/// The build metadata that placeholders may refer to.
pub struct MacroContext {
    pub name: String,
    pub version: String,
    pub build_id: String,
    pub arch: String,
    pub platform: String,
    /// The value of `${date}`; the token is recognised only when this is set.
    pub date: Option<String>,
}

/// A placeholder whose field is not recognised; it holds the field's name.
#[derive(Debug)]
pub enum MacroError {
    UnknownMacro(String),
}

/// The value a placeholder field stands for, if the field is recognised.
pub open spec fn macro_value(ctx: MacroContext, field: Seq<char>) -> Option<Seq<char>> {
    if field == seq!['n', 'a', 'm', 'e'] {
        Some(ctx.name@)
    } else if field == seq!['v', 'e', 'r', 's', 'i', 'o', 'n'] {
        Some(ctx.version@)
    } else if field == seq!['b', 'u', 'i', 'l', 'd', '_', 'i', 'd'] {
        Some(ctx.build_id@)
    } else if field == seq!['a', 'r', 'c', 'h'] {
        Some(ctx.arch@)
    } else if field == seq!['p', 'l', 'a', 't', 'f', 'o', 'r', 'm'] {
        Some(ctx.platform@)
    } else if field == seq!['d', 'a', 't', 'e'] && ctx.date is Some {
        Some(ctx.date->Some_0@)
    } else {
        None
    }
}

/// Whether a placeholder opens at position `i` (the characters `${`).
pub open spec fn opens_at(t: Seq<char>, i: int) -> bool {
    0 <= i && i + 1 < t.len() && t[i] == '$' && t[i + 1] == '{'
}

/// The number of characters from `k` up to the first `}` (or the end).
pub open spec fn field_len(t: Seq<char>, k: int) -> nat
    decreases t.len() - k,
{
    if k < 0 || k >= t.len() || t[k] == '}' {
        0
    } else {
        1 + field_len(t, k + 1)
    }
}

/// Puts `a` in front of an expansion result; an error stays as it is.
pub open spec fn prepend(a: Seq<char>, r: Result<Seq<char>, Seq<char>>) -> Result<Seq<char>, Seq<char>> {
    match r {
        Ok(s) => Ok(a + s),
        Err(e) => Err(e),
    }
}

/// The expansion of the template from position `i` on: `Ok` with the text, or
/// `Err` with the first unrecognised field. A `${` with no closing `}` is kept as
/// literal text, and substituted values are not expanded again.
pub open spec fn expand_from(t: Seq<char>, ctx: MacroContext, i: int) -> Result<Seq<char>, Seq<char>>
    decreases t.len() - i,
{
    if i < 0 || i >= t.len() {
        Ok(Seq::empty())
    } else if opens_at(t, i) {
        let j = i + 2 + field_len(t, i + 2);
        if j >= t.len() {
            Ok(t.subrange(i, t.len() as int))
        } else {
            let field = t.subrange(i + 2, j);
            match macro_value(ctx, field) {
                Some(v) => prepend(v, expand_from(t, ctx, j + 1)),
                None => Err(field),
            }
        }
    } else {
        prepend(seq![t[i]], expand_from(t, ctx, i + 1))
    }
}

/// The expansion of a whole template.
pub open spec fn expand_spec(t: Seq<char>, ctx: MacroContext) -> Result<Seq<char>, Seq<char>> {
    expand_from(t, ctx, 0)
}

/// Whether an executable expansion result agrees with `expand_spec`.
pub open spec fn expansion_agrees(r: Result<String, MacroError>, e: Result<Seq<char>, Seq<char>>) -> bool {
    match r {
        Ok(s) => e == Ok::<Seq<char>, Seq<char>>(s@),
        Err(MacroError::UnknownMacro(f)) => e == Err::<Seq<char>, Seq<char>>(f@),
    }
}

fn lookup<'a>(ctx: &'a MacroContext, field: &str) -> (r: Option<&'a String>)
    ensures
        r is Some <==> macro_value(*ctx, field@) is Some,
        r is Some ==> r->Some_0@ == macro_value(*ctx, field@)->Some_0,
{
    proof {
        reveal_strlit("name");
        reveal_strlit("version");
        reveal_strlit("build_id");
        reveal_strlit("arch");
        reveal_strlit("platform");
        reveal_strlit("date");
        assert("name"@ =~= seq!['n', 'a', 'm', 'e']);
        assert("version"@ =~= seq!['v', 'e', 'r', 's', 'i', 'o', 'n']);
        assert("build_id"@ =~= seq!['b', 'u', 'i', 'l', 'd', '_', 'i', 'd']);
        assert("arch"@ =~= seq!['a', 'r', 'c', 'h']);
        assert("platform"@ =~= seq!['p', 'l', 'a', 't', 'f', 'o', 'r', 'm']);
        assert("date"@ =~= seq!['d', 'a', 't', 'e']);
    }
    if same_text(field, "name") {
        Some(&ctx.name)
    } else if same_text(field, "version") {
        Some(&ctx.version)
    } else if same_text(field, "build_id") {
        Some(&ctx.build_id)
    } else if same_text(field, "arch") {
        Some(&ctx.arch)
    } else if same_text(field, "platform") {
        Some(&ctx.platform)
    } else if same_text(field, "date") {
        match &ctx.date {
            Some(d) => Some(d),
            None => None,
        }
    } else {
        None
    }
}

/// Expands every `${field}` placeholder of `template` from `ctx`, or names the
/// first placeholder whose field is not recognised.
pub fn expand(template: &str, ctx: &MacroContext) -> (r: Result<String, MacroError>)
    ensures
        expansion_agrees(r, expand_spec(template@, *ctx)),
{
    let ghost t = template@;
    let n = template.unicode_len();
    let mut out = String::new();
    let mut i: usize = 0;
    while i < n
        invariant
            n == t.len(),
            t == template@,
            i <= n,
            prepend(out@, expand_from(t, *ctx, i as int)) == expand_spec(t, *ctx),
        decreases n - i,
    {
        let c = template.get_char(i);
        if c == '$' && i + 1 < n && template.get_char(i + 1) == '{' {
            assert(opens_at(t, i as int));
            let mut j: usize = i + 2;
            while j < n && template.get_char(j) != '}'
                invariant
                    n == t.len(),
                    t == template@,
                    i + 2 <= j <= n,
                    field_len(t, i + 2) == (j - (i + 2)) + field_len(t, j as int),
                decreases n - j,
            {
                j = j + 1;
            }
            assert(j == i + 2 + field_len(t, i + 2));
            if j >= n {
                let rest = template.substring_char(i, n);
                out.append(rest);
                assert(expand_from(t, *ctx, i as int) == Ok::<Seq<char>, Seq<char>>(rest@));
                i = n;
                assert(expand_from(t, *ctx, i as int) == Ok::<Seq<char>, Seq<char>>(Seq::empty()));
                assert(out@ + Seq::<char>::empty() =~= out@);
            } else {
                let field = template.substring_char(i + 2, j);
                match lookup(ctx, field) {
                    Some(v) => {
                        let ghost before = out@;
                        out.append(v.as_str());
                        proof {
                            if let Ok(r) = expand_from(t, *ctx, j + 1) {
                                assert(before + (v@ + r) =~= out@ + r);
                            }
                        }
                        i = j + 1;
                    },
                    None => {
                        return Err(MacroError::UnknownMacro(field.to_owned()));
                    },
                }
            }
        } else {
            assert(!opens_at(t, i as int));
            let piece = template.substring_char(i, i + 1);
            assert(piece@ =~= seq![t[i as int]]);
            let ghost before = out@;
            out.append(piece);
            proof {
                if let Ok(r) = expand_from(t, *ctx, i + 1) {
                    assert(before + (piece@ + r) =~= out@ + r);
                }
            }
            i = i + 1;
        }
    }
    assert(expand_from(t, *ctx, n as int) == Ok::<Seq<char>, Seq<char>>(Seq::empty()));
    assert(out@ + Seq::<char>::empty() =~= out@);
    Ok(out)
}

/// Expansion is a function of the template and the context: two expansions of
/// the same template in the same context agree, in their text or in the field
/// they reject.
pub proof fn expansion_is_pure(
    t: Seq<char>,
    ctx: MacroContext,
    r1: Result<String, MacroError>,
    r2: Result<String, MacroError>,
)
    requires
        expansion_agrees(r1, expand_spec(t, ctx)),
        expansion_agrees(r2, expand_spec(t, ctx)),
    ensures
        r1 is Ok <==> r2 is Ok,
        r1 is Ok ==> r1->Ok_0@ == r2->Ok_0@,
        r1 is Err ==> r1->Err_0->UnknownMacro_0@ == r2->Err_0->UnknownMacro_0@,
{
}

/// A placeholder whose field is not recognised makes expansion fail, naming the
/// field, when no placeholder comes before it.
pub proof fn unknown_field_fails(pre: Seq<char>, field: Seq<char>, post: Seq<char>, ctx: MacroContext)
    requires
        forall|k: int| 0 <= k < pre.len() ==> pre[k] != '$',
        forall|k: int| 0 <= k < field.len() ==> field[k] != '}',
        macro_value(ctx, field) is None,
    ensures
        expand_spec(pre + seq!['$', '{'] + field + seq!['}'] + post, ctx) == Err::<Seq<char>, Seq<char>>(field),
{
    let t = pre + seq!['$', '{'] + field + seq!['}'] + post;
    let p = pre.len() as int;
    let m = field.len() as int;
    assert(t[p] == '$' && t[p + 1] == '{');
    assert(t[p + 2 + m] == '}');
    assert forall|k: int| p + 2 <= k < p + 2 + m implies t[k] != '}' by {
        assert(t[k] == field[k - p - 2]);
    }
    lemma_field_len(t, p + 2, m);
    assert(t.subrange(p + 2, p + 2 + m) =~= field);
    assert(expand_from(t, ctx, p) == Err::<Seq<char>, Seq<char>>(field));
    lemma_plain_prefix(t, ctx, p, 0, field);
}

proof fn lemma_field_len(t: Seq<char>, k: int, m: int)
    requires
        0 <= k,
        0 <= m,
        k + m < t.len(),
        t[k + m] == '}',
        forall|i: int| k <= i < k + m ==> t[i] != '}',
    ensures
        field_len(t, k) == m,
    decreases m,
{
    if m > 0 {
        lemma_field_len(t, k + 1, m - 1);
    }
}

proof fn lemma_plain_prefix(t: Seq<char>, ctx: MacroContext, p: int, i: int, field: Seq<char>)
    requires
        0 <= i <= p,
        p + 1 < t.len(),
        forall|k: int| 0 <= k < p ==> t[k] != '$',
        expand_from(t, ctx, p) == Err::<Seq<char>, Seq<char>>(field),
    ensures
        expand_from(t, ctx, i) == Err::<Seq<char>, Seq<char>>(field),
    decreases p - i,
{
    if i < p {
        lemma_plain_prefix(t, ctx, p, i + 1, field);
    }
}

/// Whether a placeholder opens at `i`, is closed by a `}`, and names a field
/// that is not recognised.
pub open spec fn unknown_placeholder_at(t: Seq<char>, ctx: MacroContext, i: int) -> bool {
    opens_at(t, i) && i + 2 + field_len(t, i + 2) < t.len() && macro_value(
        ctx,
        t.subrange(i + 2, i + 2 + field_len(t, i + 2)),
    ) is None
}

/// A template that holds a closed placeholder with an unrecognised field anywhere
/// cannot be expanded: expansion fails.
pub proof fn unknown_placeholder_fails(t: Seq<char>, ctx: MacroContext, i: int)
    requires
        unknown_placeholder_at(t, ctx, i),
    ensures
        expand_spec(t, ctx) is Err,
{
    lemma_err_from(t, ctx, i, 0);
}

proof fn lemma_field_len_bound(t: Seq<char>, k: int, c: int)
    requires
        0 <= k <= c < t.len(),
        t[c] == '}',
    ensures
        k + field_len(t, k) <= c,
    decreases c - k,
{
    if k < c && t[k] != '}' {
        lemma_field_len_bound(t, k + 1, c);
    }
}

proof fn lemma_field_len_end(t: Seq<char>, k: int)
    requires
        0 <= k,
        k + field_len(t, k) < t.len(),
    ensures
        t[k + field_len(t, k)] == '}',
    decreases t.len() - k,
{
    if t[k] != '}' {
        lemma_field_len_end(t, k + 1);
    }
}

proof fn lemma_field_len_stop(t: Seq<char>, k: int, m: int)
    requires
        0 <= k <= m,
        m < k + field_len(t, k),
    ensures
        m < t.len(),
        t[m] != '}',
    decreases m - k,
{
    if m > k {
        lemma_field_len_stop(t, k + 1, m);
    }
}

proof fn lemma_dollar_unknown(ctx: MacroContext, f: Seq<char>, m: int)
    requires
        0 <= m < f.len(),
        f[m] == '$',
    ensures
        macro_value(ctx, f) is None,
{
    if f == seq!['n', 'a', 'm', 'e'] {
        assert(f[m] != '$');
    } else if f == seq!['v', 'e', 'r', 's', 'i', 'o', 'n'] {
        assert(f[m] != '$');
    } else if f == seq!['b', 'u', 'i', 'l', 'd', '_', 'i', 'd'] {
        assert(f[m] != '$');
    } else if f == seq!['a', 'r', 'c', 'h'] {
        assert(f[m] != '$');
    } else if f == seq!['p', 'l', 'a', 't', 'f', 'o', 'r', 'm'] {
        assert(f[m] != '$');
    } else if f == seq!['d', 'a', 't', 'e'] {
        assert(f[m] != '$');
    }
}

proof fn lemma_err_from(t: Seq<char>, ctx: MacroContext, i: int, j: int)
    requires
        unknown_placeholder_at(t, ctx, i),
        0 <= j <= i,
    ensures
        expand_from(t, ctx, j) is Err,
    decreases i - j,
{
    let ci = i + 2 + field_len(t, i + 2);
    if j == i {
    } else if opens_at(t, j) {
        let c = j + 2 + field_len(t, j + 2);
        lemma_field_len_end(t, i + 2);
        lemma_field_len_bound(t, j + 2, ci);
        if c < i {
            lemma_err_from(t, ctx, i, c + 1);
        } else {
            assert(j + 1 != i);
            lemma_field_len_end(t, j + 2);
            assert(c > i);
            lemma_field_len_stop(t, j + 2, i);
            let f = t.subrange(j + 2, c);
            assert(f[i - j - 2] == '$');
            lemma_dollar_unknown(ctx, f, i - j - 2);
        }
    } else {
        lemma_err_from(t, ctx, i, j + 1);
    }
}

} // verus!
