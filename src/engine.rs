//! The directive engine: interpolation, repetition, conditionals and comments,
//! applied in that order, each as one pass over the text left by the one before.
use vstd::prelude::*;
use crate::markers::{
    close_comment, close_comment_chars, close_tag, close_tag_chars, close_var, close_var_chars,
    else_tag, else_tag_chars, end_repeat, end_repeat_chars, endif_tag, endif_tag_chars,
    error_marker, error_marker_chars, html_close_comment, html_close_comment_chars,
    html_open_comment, html_open_comment_chars, open_comment, open_comment_chars, open_if,
    open_if_chars, open_repeat, open_repeat_chars, open_var, open_var_chars, times_tag,
    times_tag_chars,
};
use crate::text::{append_range, chars_of, string_of, find, find_from, lemma_find_from, match_at, matches_at, trim, trim_bounds};
use crate::value::{display, Bindings, Value};

verus! {

/// Why a template could not be rendered.
#[derive(Debug, Clone, Copy, PartialEq, Eq, Structural)]
pub enum RenderError {
    /// A directive names a variable that is not bound.
    UnboundVariable,
    /// A conditional block names a variable that is not a boolean (strict rendering only).
    TypeMismatch,
    /// The count of a repetition block is missing, not a decimal number, or too large.
    MalformedRepeatCount,
    /// An opening marker has no closing marker after it.
    UnterminatedDirective,
}

/// `r` with `x` put in front of the text it holds.
pub open spec fn prepend(x: Seq<char>, r: Result<Seq<char>, RenderError>) -> Result<
    Seq<char>,
    RenderError,
> {
    match r {
        Ok(t) => Ok(x + t),
        Err(e) => Err(e),
    }
}

/// The characters of a result's text.
pub open spec fn chars_result(r: Result<Vec<char>, RenderError>) -> Result<Seq<char>, RenderError> {
    match r {
        Ok(v) => Ok(v@),
        Err(e) => Err(e),
    }
}

/// Interpolation of `s` from position `pos` on: each `{{ name }}` becomes the
/// display form of the value bound to the trimmed name.
pub open spec fn interp_from(s: Seq<char>, pos: int, b: Map<Seq<char>, Value>) -> Result<
    Seq<char>,
    RenderError,
>
    decreases s.len() + 1 - pos,
{
    if pos < 0 || pos > s.len() {
        Ok(Seq::empty())
    } else {
        let i = find_from(s, open_var(), pos);
        if i < 0 {
            Ok(s.subrange(pos, s.len() as int))
        } else {
            let j = find_from(s, close_var(), i + 2);
            if j < 0 {
                Err(RenderError::UnterminatedDirective)
            } else {
                let name = trim(s.subrange(i + 2, j));
                if !b.contains_key(name) {
                    Err(RenderError::UnboundVariable)
                } else {
                    proof {
                        lemma_find_from(s, open_var(), pos);
                        lemma_find_from(s, close_var(), i + 2);
                    }
                    prepend(s.subrange(pos, i) + display(b[name]), interp_from(s, j + 2, b))
                }
            }
        }
    }
}

proof fn lemma_prepend_assoc(x: Seq<char>, y: Seq<char>, r: Result<Seq<char>, RenderError>)
    ensures
        prepend(x, prepend(y, r)) == prepend(x + y, r),
{
    if let Ok(t) = r {
        assert(x + (y + t) =~= (x + y) + t);
    }
}

/// Replaces each interpolation in `s` by the display form of its value.
pub fn interpolate(s: &Vec<char>, b: &Bindings) -> (r: Result<Vec<char>, RenderError>)
    ensures
        chars_result(r) == interp_from(s@, 0, b@),
{
    let ov = open_var_chars();
    let cv = close_var_chars();
    let mut out: Vec<char> = Vec::new();
    let mut pos: usize = 0;
    loop
        invariant
            pos <= s.len(),
            ov@ == open_var(),
            cv@ == close_var(),
            interp_from(s@, 0, b@) == prepend(out@, interp_from(s@, pos as int, b@)),
        decreases s.len() - pos,
    {
        proof {
            lemma_find_from(s@, open_var(), pos as int);
        }
        match find(s, &ov, pos) {
            None => {
                append_range(&mut out, s, pos, s.len());
                return Ok(out);
            },
            Some(i) => {
                proof {
                    lemma_find_from(s@, close_var(), i + 2);
                }
                match find(s, &cv, i + 2) {
                    None => {
                        return Err(RenderError::UnterminatedDirective);
                    },
                    Some(j) => {
                        let (lo, hi) = trim_bounds(s, i + 2, j);
                        let mut name: Vec<char> = Vec::new();
                        append_range(&mut name, s, lo, hi);
                        match b.lookup(&name) {
                            None => {
                                return Err(RenderError::UnboundVariable);
                            },
                            Some(v) => {
                                let ghost before = out@;
                                append_range(&mut out, s, pos, i);
                                v.display_into(&mut out);
                                proof {
                                    lemma_prepend_assoc(
                                        before,
                                        s@.subrange(pos as int, i as int) + display(*v),
                                        interp_from(s@, j + 2, b@),
                                    );
                                    assert(out@ =~= before + (s@.subrange(pos as int, i as int)
                                        + display(*v)));
                                }
                                pos = j + 2;
                            },
                        }
                    },
                }
            },
        }
    }
}

/// An ASCII decimal digit.
pub open spec fn is_digit(c: char) -> bool {
    48 <= c as u32 <= 57
}

/// End of the run of digits that starts at `d`.
pub open spec fn digits_end(s: Seq<char>, d: int) -> int
    decreases s.len() - d,
{
    if d < 0 || d >= s.len() || !is_digit(s[d]) {
        d
    } else {
        digits_end(s, d + 1)
    }
}

/// A run of digits ends at or after its start, and within the text.
pub proof fn lemma_digits_end(s: Seq<char>, d: int)
    requires
        0 <= d,
    ensures
        d <= digits_end(s, d),
        d <= s.len() ==> digits_end(s, d) <= s.len(),
    decreases s.len() - d,
{
    if d < s.len() && is_digit(s[d]) {
        lemma_digits_end(s, d + 1);
    }
}

/// The number that a run of decimal digits writes.
pub open spec fn digits_value(ds: Seq<char>) -> nat
    decreases ds.len(),
{
    if ds.len() == 0 {
        0
    } else {
        digits_value(ds.drop_last()) * 10 + (ds.last() as u32 - 48) as nat
    }
}

/// `x` written `n` times in a row.
pub open spec fn repeat_seq(x: Seq<char>, n: nat) -> Seq<char>
    decreases n,
{
    if n == 0 {
        Seq::empty()
    } else {
        repeat_seq(x, (n - 1) as nat) + x
    }
}

/// Repetition over `s` from position `pos` on: each
/// `{% repeat N times %}BODY{% endrepeat %}` becomes the trimmed body written N times.
pub open spec fn repeat_from(s: Seq<char>, pos: int) -> Result<Seq<char>, RenderError>
    decreases s.len() + 1 - pos,
{
    if pos < 0 || pos > s.len() {
        Ok(Seq::empty())
    } else {
        let i = find_from(s, open_repeat(), pos);
        if i < 0 {
            Ok(s.subrange(pos, s.len() as int))
        } else {
            let d = i + 10;
            let e = digits_end(s, d);
            if e == d || !matches_at(s, e, times_tag()) || digits_value(s.subrange(d, e))
                > usize::MAX {
                Err(RenderError::MalformedRepeatCount)
            } else {
                let j = find_from(s, end_repeat(), e + 9);
                if j < 0 {
                    Err(RenderError::UnterminatedDirective)
                } else {
                    proof {
                        lemma_find_from(s, open_repeat(), pos);
                        lemma_digits_end(s, d);
                        lemma_find_from(s, end_repeat(), e + 9);
                    }
                    prepend(
                        s.subrange(pos, i) + repeat_seq(
                            trim(s.subrange(e + 9, j)),
                            digits_value(s.subrange(d, e)),
                        ),
                        repeat_from(s, j + 15),
                    )
                }
            }
        }
    }
}

/// Reads the run of digits at `d`: its end, and its value unless that exceeds `usize`.
fn read_count(s: &Vec<char>, d: usize) -> (r: (usize, Option<usize>))
    requires
        d <= s.len(),
    ensures
        r.0 == digits_end(s@, d as int),
        match r.1 {
            Some(n) => n == digits_value(s@.subrange(d as int, r.0 as int)),
            None => digits_value(s@.subrange(d as int, r.0 as int)) > usize::MAX,
        },
{
    let mut k: usize = d;
    let mut acc: usize = 0;
    let mut overflow = false;
    while k < s.len() && 48 <= s[k] as u32 && s[k] as u32 <= 57
        invariant
            d <= k <= s.len(),
            digits_end(s@, d as int) == digits_end(s@, k as int),
            overflow ==> digits_value(s@.subrange(d as int, k as int)) > usize::MAX,
            !overflow ==> acc == digits_value(s@.subrange(d as int, k as int)),
        decreases s.len() - k,
    {
        let dv = (s[k] as u32 - 48) as usize;
        assert(s@.subrange(d as int, k + 1).drop_last() =~= s@.subrange(d as int, k as int));
        if !overflow {
            if acc > (usize::MAX - dv) / 10 {
                assert(acc * 10 + dv > usize::MAX) by (nonlinear_arith)
                    requires
                        acc > (usize::MAX - dv) / 10,
                        dv <= 9,
                ;
                overflow = true;
            } else {
                assert(acc * 10 + dv <= usize::MAX) by (nonlinear_arith)
                    requires
                        acc <= (usize::MAX - dv) / 10,
                        dv <= 9,
                ;
                acc = acc * 10 + dv;
            }
        }
        k = k + 1;
    }
    if overflow {
        (k, None)
    } else {
        (k, Some(acc))
    }
}

proof fn lemma_repeat_step(x: Seq<char>, n: nat)
    ensures
        repeat_seq(x, n + 1) == repeat_seq(x, n) + x,
{
    assert(((n + 1) as nat - 1) as nat == n);
}

/// Replaces each repetition block in `s` by its trimmed body written as many times as it says.
pub fn expand_repeats(s: &Vec<char>) -> (r: Result<Vec<char>, RenderError>)
    ensures
        chars_result(r) == repeat_from(s@, 0),
{
    let orp = open_repeat_chars();
    let tt = times_tag_chars();
    let erp = end_repeat_chars();
    let mut out: Vec<char> = Vec::new();
    let mut pos: usize = 0;
    loop
        invariant
            pos <= s.len(),
            orp@ == open_repeat(),
            tt@ == times_tag(),
            erp@ == end_repeat(),
            repeat_from(s@, 0) == prepend(out@, repeat_from(s@, pos as int)),
        decreases s.len() - pos,
    {
        proof {
            lemma_find_from(s@, open_repeat(), pos as int);
        }
        match find(s, &orp, pos) {
            None => {
                append_range(&mut out, s, pos, s.len());
                return Ok(out);
            },
            Some(i) => {
                let d = i + 10;
                let (e, count) = read_count(s, d);
                if e == d || !match_at(s, e, &tt) {
                    return Err(RenderError::MalformedRepeatCount);
                }
                let n = match count {
                    None => {
                        return Err(RenderError::MalformedRepeatCount);
                    },
                    Some(n) => n,
                };
                proof {
                    lemma_digits_end(s@, d as int);
                    lemma_find_from(s@, end_repeat(), e + 9);
                }
                match find(s, &erp, e + 9) {
                    None => {
                        return Err(RenderError::UnterminatedDirective);
                    },
                    Some(j) => {
                        let (lo, hi) = trim_bounds(s, e + 9, j);
                        let ghost body = s@.subrange(lo as int, hi as int);
                        let ghost before = out@;
                        append_range(&mut out, s, pos, i);
                        let ghost head = out@;
                        let mut c: usize = 0;
                        while c < n
                            invariant
                                c <= n,
                                lo <= hi <= s.len(),
                                body == s@.subrange(lo as int, hi as int),
                                out@ == head + repeat_seq(body, c as nat),
                            decreases n - c,
                        {
                            proof {
                                lemma_repeat_step(body, c as nat);
                            }
                            append_range(&mut out, s, lo, hi);
                            c = c + 1;
                            assert(out@ =~= head + repeat_seq(body, c as nat));
                        }
                        proof {
                            let mid = s@.subrange(pos as int, i as int) + repeat_seq(body, n as nat);
                            lemma_prepend_assoc(before, mid, repeat_from(s@, j + 15));
                            assert(out@ =~= before + mid);
                        }
                        pos = j + 15;
                    },
                }
            },
        }
    }
}

/// What a conditional block on `name` becomes, given its two trimmed branches:
/// the branch that a boolean value selects; for a value of another kind, the error
/// marker, or an error under strict rendering.
pub open spec fn choose_branch(
    b: Map<Seq<char>, Value>,
    name: Seq<char>,
    tb: Seq<char>,
    fb: Seq<char>,
    strict: bool,
) -> Result<Seq<char>, RenderError> {
    if !b.contains_key(name) {
        Err(RenderError::UnboundVariable)
    } else {
        match b[name] {
            Value::Boolean(x) => Ok(
                if x {
                    tb
                } else {
                    fb
                },
            ),
            _ => if strict {
                Err(RenderError::TypeMismatch)
            } else {
                Ok(error_marker())
            },
        }
    }
}

/// `a` followed by `b`, or the first error of the two.
pub open spec fn join(a: Result<Seq<char>, RenderError>, b: Result<Seq<char>, RenderError>) -> Result<
    Seq<char>,
    RenderError,
> {
    match a {
        Ok(x) => prepend(x, b),
        Err(e) => Err(e),
    }
}

/// Conditionals over `s` from position `pos` on: each
/// `{% if NAME %}T{% else %}F{% endif %}` (the else part optional) becomes the trimmed
/// branch that the value of the trimmed name selects.
pub open spec fn cond_from(s: Seq<char>, pos: int, b: Map<Seq<char>, Value>, strict: bool) -> Result<
    Seq<char>,
    RenderError,
>
    decreases s.len() + 1 - pos,
{
    if pos < 0 || pos > s.len() {
        Ok(Seq::empty())
    } else {
        let i = find_from(s, open_if(), pos);
        if i < 0 {
            Ok(s.subrange(pos, s.len() as int))
        } else {
            let h = find_from(s, close_tag(), i + 6);
            if h < 0 {
                Err(RenderError::UnterminatedDirective)
            } else {
                let j = find_from(s, endif_tag(), h + 2);
                if j < 0 {
                    Err(RenderError::UnterminatedDirective)
                } else {
                    let k = find_from(s, else_tag(), h + 2);
                    let has_else = k >= 0 && k + 10 <= j;
                    let tb = if has_else {
                        trim(s.subrange(h + 2, k))
                    } else {
                        trim(s.subrange(h + 2, j))
                    };
                    let fb = if has_else {
                        trim(s.subrange(k + 10, j))
                    } else {
                        Seq::empty()
                    };
                    proof {
                        lemma_find_from(s, open_if(), pos);
                        lemma_find_from(s, close_tag(), i + 6);
                        lemma_find_from(s, endif_tag(), h + 2);
                    }
                    prepend(
                        s.subrange(pos, i),
                        join(
                            choose_branch(b, trim(s.subrange(i + 6, h)), tb, fb, strict),
                            cond_from(s, j + 11, b, strict),
                        ),
                    )
                }
            }
        }
    }
}

proof fn lemma_join_step(
    before: Seq<char>,
    head: Seq<char>,
    x: Seq<char>,
    r: Result<Seq<char>, RenderError>,
)
    ensures
        prepend(before, prepend(head, join(Ok(x), r))) == prepend(before + head + x, r),
{
    if let Ok(t) = r {
        assert(before + (head + (x + t)) =~= before + head + x + t);
    }
}

/// Replaces each conditional block in `s` by the branch that its variable selects.
pub fn resolve_conditionals(s: &Vec<char>, b: &Bindings, strict: bool) -> (r: Result<
    Vec<char>,
    RenderError,
>)
    ensures
        chars_result(r) == cond_from(s@, 0, b@, strict),
{
    let oi = open_if_chars();
    let ct = close_tag_chars();
    let et = else_tag_chars();
    let ei = endif_tag_chars();
    let mut out: Vec<char> = Vec::new();
    let mut pos: usize = 0;
    loop
        invariant
            pos <= s.len(),
            oi@ == open_if(),
            ct@ == close_tag(),
            et@ == else_tag(),
            ei@ == endif_tag(),
            cond_from(s@, 0, b@, strict) == prepend(out@, cond_from(s@, pos as int, b@, strict)),
        decreases s.len() - pos,
    {
        proof {
            lemma_find_from(s@, open_if(), pos as int);
        }
        let i = match find(s, &oi, pos) {
            None => {
                append_range(&mut out, s, pos, s.len());
                return Ok(out);
            },
            Some(i) => i,
        };
        proof {
            lemma_find_from(s@, close_tag(), i + 6);
        }
        let h = match find(s, &ct, i + 6) {
            None => {
                return Err(RenderError::UnterminatedDirective);
            },
            Some(h) => h,
        };
        proof {
            lemma_find_from(s@, endif_tag(), h + 2);
            lemma_find_from(s@, else_tag(), h + 2);
        }
        let j = match find(s, &ei, h + 2) {
            None => {
                return Err(RenderError::UnterminatedDirective);
            },
            Some(j) => j,
        };
        let k = find(s, &et, h + 2);
        let (t_lo, t_hi, f_lo, f_hi) = match k {
            Some(k) if k + 10 <= j => {
                let (a, c) = trim_bounds(s, h + 2, k);
                let (d, e) = trim_bounds(s, k + 10, j);
                (a, c, d, e)
            },
            _ => {
                let (a, c) = trim_bounds(s, h + 2, j);
                (a, c, j, j)
            },
        };
        let ghost has_else = find_from(s@, else_tag(), h + 2) >= 0 && find_from(
            s@,
            else_tag(),
            h + 2,
        ) + 10 <= j;
        assert(!has_else ==> s@.subrange(f_lo as int, f_hi as int) =~= Seq::<char>::empty());
        let (n_lo, n_hi) = trim_bounds(s, i + 6, h);
        let mut name: Vec<char> = Vec::new();
        append_range(&mut name, s, n_lo, n_hi);
        let ghost before = out@;
        let ghost tb = s@.subrange(t_lo as int, t_hi as int);
        let ghost fb = s@.subrange(f_lo as int, f_hi as int);
        let ghost chosen: Seq<char>;
        match b.lookup(&name) {
            None => {
                return Err(RenderError::UnboundVariable);
            },
            Some(Value::Boolean(x)) => {
                append_range(&mut out, s, pos, i);
                if *x {
                    append_range(&mut out, s, t_lo, t_hi);
                    proof {
                        chosen = tb;
                    }
                } else {
                    append_range(&mut out, s, f_lo, f_hi);
                    proof {
                        chosen = fb;
                    }
                }
            },
            Some(_) => {
                if strict {
                    return Err(RenderError::TypeMismatch);
                }
                append_range(&mut out, s, pos, i);
                let m = error_marker_chars();
                append_range(&mut out, &m, 0, m.len());
                proof {
                    assert(m@.subrange(0, m@.len() as int) =~= m@);
                    chosen = error_marker();
                }
            },
        }
        proof {
            let head = s@.subrange(pos as int, i as int);
            lemma_join_step(before, head, chosen, cond_from(s@, j + 11, b@, strict));
            assert(out@ =~= before + head + chosen);
        }
        pos = j + 11;
    }
}

/// `s` from position `pos` on, with each occurrence of `p` replaced by `r`.
pub open spec fn replace_from(s: Seq<char>, p: Seq<char>, r: Seq<char>, pos: int) -> Seq<char>
    decreases s.len() + 1 - pos,
{
    if pos < 0 || pos > s.len() || p.len() == 0 {
        s.subrange(pos, s.len() as int)
    } else {
        let i = find_from(s, p, pos);
        if i < 0 {
            s.subrange(pos, s.len() as int)
        } else {
            proof {
                lemma_find_from(s, p, pos);
            }
            s.subrange(pos, i) + r + replace_from(s, p, r, i + p.len())
        }
    }
}

/// Comment markers rewritten: `{#` to `<!--`, then `#}` to `-->`.
pub open spec fn rewrite_comments_spec(s: Seq<char>) -> Seq<char> {
    replace_from(
        replace_from(s, open_comment(), html_open_comment(), 0),
        close_comment(),
        html_close_comment(),
        0,
    )
}

/// Replaces each occurrence of `p` in `s` by `r`, scanning left to right.
pub fn replace_all(s: &Vec<char>, p: &Vec<char>, r: &Vec<char>) -> (out: Vec<char>)
    requires
        p.len() > 0,
    ensures
        out@ == replace_from(s@, p@, r@, 0),
{
    let mut out: Vec<char> = Vec::new();
    let mut pos: usize = 0;
    loop
        invariant
            pos <= s.len(),
            p.len() > 0,
            replace_from(s@, p@, r@, 0) == out@ + replace_from(s@, p@, r@, pos as int),
        decreases s.len() - pos,
    {
        proof {
            lemma_find_from(s@, p@, pos as int);
        }
        match find(s, p, pos) {
            None => {
                append_range(&mut out, s, pos, s.len());
                return out;
            },
            Some(i) => {
                let ghost before = out@;
                append_range(&mut out, s, pos, i);
                append_range(&mut out, r, 0, r.len());
                proof {
                    assert(r@.subrange(0, r@.len() as int) =~= r@);
                    assert(before + (s@.subrange(pos as int, i as int) + r@ + replace_from(
                        s@,
                        p@,
                        r@,
                        i + p@.len(),
                    )) =~= out@ + replace_from(s@, p@, r@, i + p@.len()));
                }
                pos = i + p.len();
            },
        }
    }
}

/// Rewrites comment markers: `{#` becomes `<!--` and `#}` becomes `-->`; what lies
/// between them is kept.
pub fn rewrite_comments(s: &Vec<char>) -> (r: Vec<char>)
    ensures
        r@ == rewrite_comments_spec(s@),
{
    let oc = open_comment_chars();
    let hoc = html_open_comment_chars();
    let cc = close_comment_chars();
    let hcc = html_close_comment_chars();
    let t = replace_all(s, &oc, &hoc);
    replace_all(&t, &cc, &hcc)
}

/// The whole pipeline: interpolation, then repetition, then conditionals, then
/// comment markers; the first error met ends the render.
pub open spec fn render_spec(t: Seq<char>, b: Map<Seq<char>, Value>, strict: bool) -> Result<
    Seq<char>,
    RenderError,
> {
    match interp_from(t, 0, b) {
        Err(e) => Err(e),
        Ok(t1) => match repeat_from(t1, 0) {
            Err(e) => Err(e),
            Ok(t2) => match cond_from(t2, 0, b, strict) {
                Err(e) => Err(e),
                Ok(t3) => Ok(rewrite_comments_spec(t3)),
            },
        },
    }
}

/// The characters of a rendered string.
pub open spec fn string_result(r: Result<String, RenderError>) -> Result<Seq<char>, RenderError> {
    match r {
        Ok(v) => Ok(v@),
        Err(e) => Err(e),
    }
}

fn render_chars(template: &str, bindings: &Bindings, strict: bool) -> (r: Result<String, RenderError>)
    ensures
        string_result(r) == render_spec(template@, bindings@, strict),
{
    let t = chars_of(template);
    let t1 = match interpolate(&t, bindings) {
        Err(e) => {
            return Err(e);
        },
        Ok(t1) => t1,
    };
    let t2 = match expand_repeats(&t1) {
        Err(e) => {
            return Err(e);
        },
        Ok(t2) => t2,
    };
    let t3 = match resolve_conditionals(&t2, bindings, strict) {
        Err(e) => {
            return Err(e);
        },
        Ok(t3) => t3,
    };
    let t4 = rewrite_comments(&t3);
    Ok(string_of(&t4))
}

/// Renders `template` against `bindings`. A conditional block whose variable is
/// bound to something other than a boolean becomes the error marker in place.
pub fn render(template: &str, bindings: &Bindings) -> (r: Result<String, RenderError>)
    ensures
        string_result(r) == render_spec(template@, bindings@, false),
{
    render_chars(template, bindings, false)
}

/// Renders `template` against `bindings`, failing with `TypeMismatch` where a
/// conditional block's variable is not a boolean.
pub fn render_strict(template: &str, bindings: &Bindings) -> (r: Result<String, RenderError>)
    ensures
        string_result(r) == render_spec(template@, bindings@, true),
{
    render_chars(template, bindings, true)
}

} // verus!
