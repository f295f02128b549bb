//! Properties of rendering as a whole, proved from the passes' definitions.
use vstd::prelude::*;
use crate::engine::{cond_from, interp_from, render_spec, repeat_from, replace_from, rewrite_comments_spec};
use crate::markers::{
    close_comment, close_var, html_close_comment, html_open_comment, open_comment, open_if,
    open_repeat, open_var,
};
use crate::text::{find_from, lemma_find_absent, lemma_find_from, matches_at, occurs, trim};
use crate::value::{digit_char, display, int_display, nat_digits, Value};

verus! {

/// Text that holds no directive: no opening marker of any kind, and no closing comment marker.
pub open spec fn no_directives(t: Seq<char>) -> bool {
    &&& !occurs(t, open_var())
    &&& !occurs(t, open_repeat())
    &&& !occurs(t, open_if())
    &&& !occurs(t, open_comment())
    &&& !occurs(t, close_comment())
}

proof fn lemma_replace_absent(s: Seq<char>, p: Seq<char>, r: Seq<char>)
    requires
        p.len() > 0,
        !occurs(s, p),
    ensures
        replace_from(s, p, r, 0) == s,
{
    lemma_find_absent(s, p, 0);
    assert(s.subrange(0, s.len() as int) =~= s);
}

/// The passes after interpolation leave text without directives unchanged.
proof fn lemma_later_passes_identity(t: Seq<char>, b: Map<Seq<char>, Value>, strict: bool)
    requires
        no_directives(t),
    ensures
        repeat_from(t, 0) == Ok::<Seq<char>, crate::engine::RenderError>(t),
        cond_from(t, 0, b, strict) == Ok::<Seq<char>, crate::engine::RenderError>(t),
        rewrite_comments_spec(t) == t,
{
    assert(t.subrange(0, t.len() as int) =~= t);
    lemma_find_absent(t, open_repeat(), 0);
    lemma_find_absent(t, open_if(), 0);
    lemma_replace_absent(t, open_comment(), html_open_comment());
    lemma_replace_absent(t, close_comment(), html_close_comment());
}

/// Rendering text that holds no directive gives the text back unchanged.
pub proof fn lemma_render_identity(t: Seq<char>, b: Map<Seq<char>, Value>, strict: bool)
    requires
        no_directives(t),
    ensures
        render_spec(t, b, strict) == Ok::<Seq<char>, crate::engine::RenderError>(t),
{
    assert(t.subrange(0, t.len() as int) =~= t);
    lemma_find_absent(t, open_var(), 0);
    lemma_later_passes_identity(t, b, strict);
}

/// Rendering text that holds no directive succeeds, and rendering the result
/// again gives the same result.
pub proof fn lemma_render_idempotent(t: Seq<char>, b: Map<Seq<char>, Value>, strict: bool)
    requires
        no_directives(t),
    ensures
        render_spec(t, b, strict) is Ok,
        render_spec(render_spec(t, b, strict)->Ok_0, b, strict) == render_spec(t, b, strict),
{
    lemma_render_identity(t, b, strict);
    lemma_render_identity(t, b, strict);
}

proof fn lemma_first_char_absent(s: Seq<char>, p: Seq<char>)
    requires
        p.len() > 0,
        forall|i: int| 0 <= i < s.len() ==> s[i] != p[0],
    ensures
        !occurs(s, p),
{
    assert forall|i: int| !#[trigger] matches_at(s, i, p) by {
        if matches_at(s, i, p) {
            assert(s.subrange(i, i + p.len())[0] == s[i]);
        }
    }
}

/// Text with neither `{` nor `#` holds no directive.
proof fn lemma_plain_no_directives(s: Seq<char>)
    requires
        forall|i: int| 0 <= i < s.len() ==> s[i] != '{' && s[i] != '#',
    ensures
        no_directives(s),
{
    lemma_first_char_absent(s, open_var());
    lemma_first_char_absent(s, open_repeat());
    lemma_first_char_absent(s, open_if());
    lemma_first_char_absent(s, open_comment());
    lemma_first_char_absent(s, close_comment());
}

proof fn lemma_digits_plain(n: nat)
    ensures
        forall|i: int|
            0 <= i < nat_digits(n).len() ==> nat_digits(n)[i] != '{' && nat_digits(n)[i] != '#',
    decreases n,
{
    let c = digit_char(n % 10);
    assert(c != '{' && c != '#');
    if n >= 10 {
        lemma_digits_plain(n / 10);
        let prev = nat_digits(n / 10);
        assert(nat_digits(n) == prev.push(c));
        assert forall|i: int| 0 <= i < nat_digits(n).len() implies nat_digits(n)[i] != '{'
            && nat_digits(n)[i] != '#' by {
            if i < prev.len() {
                assert(nat_digits(n)[i] == prev[i]);
            }
        }
    } else {
        assert(n % 10 == n);
        assert(nat_digits(n) =~= seq![c]);
    }
}

/// Integers and booleans display without any directive.
proof fn lemma_display_plain(v: Value)
    requires
        v is Text ==> no_directives(display(v)),
    ensures
        no_directives(display(v)),
{
    match v {
        Value::Integer(n) => {
            let m: nat = if n < 0 {
                (-n) as nat
            } else {
                n as nat
            };
            lemma_digits_plain(m);
            lemma_plain_no_directives(int_display(n as int));
        },
        Value::Boolean(x) => {
            lemma_plain_no_directives(display(v));
        },
        Value::Text(_) => {},
    }
}

/// The template `{{x}}`.
pub open spec fn lone_x() -> Seq<char> {
    seq!['{', '{', 'x', '}', '}']
}

/// A template made of `{{x}}` alone renders to the display form of the value bound
/// to `x`, for a text value as long as that text holds no directive of its own.
pub proof fn lemma_lone_interpolation(b: Map<Seq<char>, Value>, v: Value, strict: bool)
    requires
        b.contains_key(seq!['x']),
        b[seq!['x']] == v,
        v is Text ==> no_directives(display(v)),
    ensures
        render_spec(lone_x(), b, strict) == Ok::<Seq<char>, crate::engine::RenderError>(display(v)),
{
    let t = lone_x();
    assert(t.subrange(0, 2) =~= open_var());
    assert(find_from(t, open_var(), 0) == 0);
    assert(t.subrange(2, 4)[0] != close_var()[0]);
    assert(t.subrange(3, 5) =~= close_var());
    assert(find_from(t, close_var(), 3) == 3);
    assert(find_from(t, close_var(), 2) == 3);
    assert(t.subrange(2, 3) =~= seq!['x']);
    assert(trim(seq!['x']) == seq!['x']);
    assert(find_from(t, open_var(), 5) == -1);
    assert(t.subrange(5, 5) =~= Seq::<char>::empty());
    assert(interp_from(t, 5, b) == Ok::<Seq<char>, crate::engine::RenderError>(Seq::<char>::empty()));
    assert(t.subrange(0, 0) + display(v) + Seq::<char>::empty() =~= display(v));
    lemma_display_plain(v);
    lemma_later_passes_identity(display(v), b, strict);
}

/// No `a` is directly followed by `b` in `s`.
pub open spec fn no_pair(s: Seq<char>, a: char, b: char) -> bool {
    forall|i: int| 0 <= i && i + 1 < s.len() ==> !(#[trigger] s[i] == a && s[i + 1] == b)
}

proof fn lemma_no_pair_concat(x: Seq<char>, y: Seq<char>, a: char, b: char)
    requires
        no_pair(x, a, b),
        no_pair(y, a, b),
        x.len() == 0 || y.len() == 0 || !(x.last() == a && y[0] == b),
    ensures
        no_pair(x + y, a, b),
{
    let z = x + y;
    assert forall|i: int| 0 <= i && i + 1 < z.len() implies !(#[trigger] z[i] == a && z[i + 1]
        == b) by {
        if i + 1 < x.len() {
            assert(z[i] == x[i] && z[i + 1] == x[i + 1]);
        } else if i >= x.len() {
            assert(z[i] == y[i - x.len()] && z[i + 1] == y[i + 1 - x.len()]);
        } else {
            assert(z[i] == x.last() && z[i + 1] == y[0]);
        }
    }
}

proof fn lemma_no_pair_sub(s: Seq<char>, lo: int, hi: int, a: char, b: char)
    requires
        0 <= lo <= hi <= s.len(),
        no_pair(s, a, b),
    ensures
        no_pair(s.subrange(lo, hi), a, b),
{
    let t = s.subrange(lo, hi);
    assert forall|i: int| 0 <= i && i + 1 < t.len() implies !(#[trigger] t[i] == a && t[i + 1]
        == b) by {
        assert(t[i] == s[lo + i] && t[i + 1] == s[lo + i + 1]);
    }
}

/// Where the two-character pattern `p` is not found from `pos` up to `end`, no
/// part of `s[pos..end]` holds it.
proof fn lemma_unmatched_no_pair(s: Seq<char>, p: Seq<char>, pos: int, end: int)
    requires
        p.len() == 2,
        0 <= pos <= end <= s.len(),
        forall|j: int| pos <= j && j < end ==> !#[trigger] matches_at(s, j, p),
    ensures
        no_pair(s.subrange(pos, end), p[0], p[1]),
{
    let t = s.subrange(pos, end);
    assert forall|i: int| 0 <= i && i + 1 < t.len() implies !(#[trigger] t[i] == p[0] && t[i + 1]
        == p[1]) by {
        if t[i] == p[0] && t[i + 1] == p[1] {
            assert(s.subrange(pos + i, pos + i + 2) =~= p);
            assert(matches_at(s, pos + i, p));
        }
    }
}

/// Replacing a two-character pattern by a text that neither holds the pair `a b`
/// nor can form it with its neighbours leaves no such pair, provided the pair is
/// the pattern itself or does not occur in the input.
proof fn lemma_replace_no_pair(s: Seq<char>, p: Seq<char>, r: Seq<char>, pos: int, a: char, b: char)
    requires
        p.len() == 2,
        0 <= pos <= s.len(),
        r.len() > 0,
        r[0] != b,
        r.last() != a,
        no_pair(r, a, b),
        (p[0] == a && p[1] == b) || no_pair(s.subrange(pos, s.len() as int), a, b),
    ensures
        no_pair(replace_from(s, p, r, pos), a, b),
    decreases s.len() + 1 - pos,
{
    let i = find_from(s, p, pos);
    lemma_find_from(s, p, pos);
    if i < 0 {
        if p[0] == a && p[1] == b {
            lemma_unmatched_no_pair(s, p, pos, s.len() as int);
        }
    } else {
        let seg = s.subrange(pos, i);
        if p[0] == a && p[1] == b {
            lemma_unmatched_no_pair(s, p, pos, i);
        } else {
            lemma_no_pair_sub(s.subrange(pos, s.len() as int), 0, i - pos, a, b);
            assert(s.subrange(pos, s.len() as int).subrange(0, i - pos) =~= seg);
            lemma_no_pair_sub(s.subrange(pos, s.len() as int), i + 2 - pos, s.len() - pos, a, b);
            assert(s.subrange(pos, s.len() as int).subrange(i + 2 - pos, s.len() - pos)
                =~= s.subrange(i + 2, s.len() as int));
        }
        lemma_replace_no_pair(s, p, r, i + 2, a, b);
        let rest = replace_from(s, p, r, i + 2);
        lemma_no_pair_concat(seg, r, a, b);
        lemma_no_pair_concat(seg + r, rest, a, b);
        assert((seg + r).last() == r.last());
    }
}

proof fn lemma_no_pair_absent(s: Seq<char>, p: Seq<char>)
    requires
        p.len() == 2,
        no_pair(s, p[0], p[1]),
    ensures
        !occurs(s, p),
{
    assert forall|i: int| !#[trigger] matches_at(s, i, p) by {
        if matches_at(s, i, p) {
            assert(s.subrange(i, i + 2)[0] == s[i]);
            assert(s.subrange(i, i + 2)[1] == s[i + 1]);
        }
    }
}

/// After comment markers are rewritten, no comment marker is left.
pub proof fn lemma_rewrite_leaves_no_comment_markers(s: Seq<char>)
    ensures
        !occurs(rewrite_comments_spec(s), open_comment()),
        !occurs(rewrite_comments_spec(s), close_comment()),
{
    let oc = html_open_comment();
    let cc = html_close_comment();
    assert(no_pair(oc, '{', '#'));
    assert(no_pair(cc, '{', '#'));
    assert(no_pair(cc, '#', '}'));
    assert(oc.last() == '-');
    assert(cc.last() == '>');
    let u = replace_from(s, open_comment(), oc, 0);
    lemma_replace_no_pair(s, open_comment(), oc, 0, '{', '#');
    assert(u.subrange(0, u.len() as int) =~= u);
    lemma_replace_no_pair(u, close_comment(), cc, 0, '{', '#');
    lemma_replace_no_pair(u, close_comment(), cc, 0, '#', '}');
    let w = replace_from(u, close_comment(), cc, 0);
    lemma_no_pair_absent(w, open_comment());
    lemma_no_pair_absent(w, close_comment());
}

/// Rewriting comment markers a second time changes nothing.
pub proof fn lemma_rewrite_comments_idempotent(s: Seq<char>)
    ensures
        rewrite_comments_spec(rewrite_comments_spec(s)) == rewrite_comments_spec(s),
{
    let w = rewrite_comments_spec(s);
    lemma_rewrite_leaves_no_comment_markers(s);
    lemma_replace_absent(w, open_comment(), html_open_comment());
    lemma_replace_absent(w, close_comment(), html_close_comment());
}

} // verus!
