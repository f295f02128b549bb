//! The marker strings of the directive grammar.
use vstd::prelude::*;

verus! {

/// Opens an interpolation. (`{{`)
pub open spec fn open_var() -> Seq<char> {
    seq!['{', '{']
}

/// Closes an interpolation. (`}}`)
pub open spec fn close_var() -> Seq<char> {
    seq!['}', '}']
}

/// Opens a repetition block, before its count. (`{% repeat `)
pub open spec fn open_repeat() -> Seq<char> {
    seq!['{', '%', ' ', 'r', 'e', 'p', 'e', 'a', 't', ' ']
}

/// Follows the count of a repetition block. (` times %}`)
pub open spec fn times_tag() -> Seq<char> {
    seq![' ', 't', 'i', 'm', 'e', 's', ' ', '%', '}']
}

/// Closes a repetition block. (`{% endrepeat %}`)
pub open spec fn end_repeat() -> Seq<char> {
    seq!['{', '%', ' ', 'e', 'n', 'd', 'r', 'e', 'p', 'e', 'a', 't', ' ', '%', '}']
}

/// Opens a conditional block, before its name. (`{% if `)
pub open spec fn open_if() -> Seq<char> {
    seq!['{', '%', ' ', 'i', 'f', ' ']
}

/// Closes the opening tag of a conditional block. (`%}`)
pub open spec fn close_tag() -> Seq<char> {
    seq!['%', '}']
}

/// Separates the two branches of a conditional block. (`{% else %}`)
pub open spec fn else_tag() -> Seq<char> {
    seq!['{', '%', ' ', 'e', 'l', 's', 'e', ' ', '%', '}']
}

/// Closes a conditional block. (`{% endif %}`)
pub open spec fn endif_tag() -> Seq<char> {
    seq!['{', '%', ' ', 'e', 'n', 'd', 'i', 'f', ' ', '%', '}']
}

/// Opens a comment. (`{#`)
pub open spec fn open_comment() -> Seq<char> {
    seq!['{', '#']
}

/// Closes a comment. (`#}`)
pub open spec fn close_comment() -> Seq<char> {
    seq!['#', '}']
}

/// What an opening comment marker becomes. (`<!--`)
pub open spec fn html_open_comment() -> Seq<char> {
    seq!['<', '!', '-', '-']
}

/// What a closing comment marker becomes. (`-->`)
pub open spec fn html_close_comment() -> Seq<char> {
    seq!['-', '-', '>']
}

/// What a conditional block on a value that is not a boolean becomes. (`ERROR PARSING KEY`)
pub open spec fn error_marker() -> Seq<char> {
    seq!['E', 'R', 'R', 'O', 'R', ' ', 'P', 'A', 'R', 'S', 'I', 'N', 'G', ' ', 'K', 'E', 'Y']
}

pub(crate) fn open_var_chars() -> (r: Vec<char>)
    ensures
        r@ == open_var(),
{
    let r = vec!['{', '{'];
    assert(r@ =~= open_var());
    r
}

pub(crate) fn close_var_chars() -> (r: Vec<char>)
    ensures
        r@ == close_var(),
{
    let r = vec!['}', '}'];
    assert(r@ =~= close_var());
    r
}

pub(crate) fn open_repeat_chars() -> (r: Vec<char>)
    ensures
        r@ == open_repeat(),
{
    let r = vec!['{', '%', ' ', 'r', 'e', 'p', 'e', 'a', 't', ' '];
    assert(r@ =~= open_repeat());
    r
}

pub(crate) fn times_tag_chars() -> (r: Vec<char>)
    ensures
        r@ == times_tag(),
{
    let r = vec![' ', 't', 'i', 'm', 'e', 's', ' ', '%', '}'];
    assert(r@ =~= times_tag());
    r
}

pub(crate) fn end_repeat_chars() -> (r: Vec<char>)
    ensures
        r@ == end_repeat(),
{
    let r = vec!['{', '%', ' ', 'e', 'n', 'd', 'r', 'e', 'p', 'e', 'a', 't', ' ', '%', '}'];
    assert(r@ =~= end_repeat());
    r
}

pub(crate) fn open_if_chars() -> (r: Vec<char>)
    ensures
        r@ == open_if(),
{
    let r = vec!['{', '%', ' ', 'i', 'f', ' '];
    assert(r@ =~= open_if());
    r
}

pub(crate) fn close_tag_chars() -> (r: Vec<char>)
    ensures
        r@ == close_tag(),
{
    let r = vec!['%', '}'];
    assert(r@ =~= close_tag());
    r
}

pub(crate) fn else_tag_chars() -> (r: Vec<char>)
    ensures
        r@ == else_tag(),
{
    let r = vec!['{', '%', ' ', 'e', 'l', 's', 'e', ' ', '%', '}'];
    assert(r@ =~= else_tag());
    r
}

pub(crate) fn endif_tag_chars() -> (r: Vec<char>)
    ensures
        r@ == endif_tag(),
{
    let r = vec!['{', '%', ' ', 'e', 'n', 'd', 'i', 'f', ' ', '%', '}'];
    assert(r@ =~= endif_tag());
    r
}

pub(crate) fn open_comment_chars() -> (r: Vec<char>)
    ensures
        r@ == open_comment(),
{
    let r = vec!['{', '#'];
    assert(r@ =~= open_comment());
    r
}

pub(crate) fn close_comment_chars() -> (r: Vec<char>)
    ensures
        r@ == close_comment(),
{
    let r = vec!['#', '}'];
    assert(r@ =~= close_comment());
    r
}

pub(crate) fn html_open_comment_chars() -> (r: Vec<char>)
    ensures
        r@ == html_open_comment(),
{
    let r = vec!['<', '!', '-', '-'];
    assert(r@ =~= html_open_comment());
    r
}

pub(crate) fn html_close_comment_chars() -> (r: Vec<char>)
    ensures
        r@ == html_close_comment(),
{
    let r = vec!['-', '-', '>'];
    assert(r@ =~= html_close_comment());
    r
}

pub(crate) fn error_marker_chars() -> (r: Vec<char>)
    ensures
        r@ == error_marker(),
{
    let r = vec!['E', 'R', 'R', 'O', 'R', ' ', 'P', 'A', 'R', 'S', 'I', 'N', 'G', ' ', 'K', 'E', 'Y'];
    assert(r@ =~= error_marker());
    r
}

} // verus!
