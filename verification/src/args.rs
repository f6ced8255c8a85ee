//! Argument lists for external programs.
use vstd::prelude::*;
use crate::text;

verus! {

/// The texts of a list.
pub open spec fn views(v: Seq<String>) -> Seq<Seq<char>> {
    Seq::new(v.len(), |i: int| v[i]@)
}

/// `f(0)`, `f(1)`, …, `f(n - 1)`, one behind the other.
pub open spec fn flat(f: spec_fn(int) -> Seq<Seq<char>>, n: int) -> Seq<Seq<char>>
    decreases n,
{
    if n <= 0 {
        Seq::empty()
    } else {
        flat(f, n - 1) + f(n - 1)
    }
}

/// A text that may be missing.
pub open spec fn opt_view(s: Option<String>) -> Option<Seq<char>> {
    match s {
        Some(t) => Some(t@),
        None => None,
    }
}

/// A borrowed text that may be missing.
pub open spec fn opt_str_view(s: Option<&str>) -> Option<Seq<char>> {
    match s {
        Some(t) => Some(t@),
        None => None,
    }
}

/// Appends an argument.
pub fn push_arg(args: &mut Vec<String>, a: &str)
    ensures
        views(final(args)@) == views(old(args)@).push(a@),
{
    let ghost before = views(args@);
    args.push(String::from_str(a));
    assert(views(args@) =~= before.push(a@));
}

/// Appends two arguments.
pub fn push_pair(args: &mut Vec<String>, a: &str, b: &str)
    ensures
        views(final(args)@) == views(old(args)@) + seq![a@, b@],
{
    let ghost before = views(args@);
    args.push(String::from_str(a));
    args.push(String::from_str(b));
    assert(views(args@) =~= before + seq![a@, b@]);
}

/// Appends a flag that ends in a number, and its value.
pub fn push_numbered(args: &mut Vec<String>, flag: &str, n: u64, value: &str)
    ensures
        views(final(args)@) == views(old(args)@) + seq![flag@ + text::decimal(n as nat), value@],
{
    let ghost before = views(args@);
    let mut f = String::from_str(flag);
    text::push_decimal(&mut f, n);
    args.push(f);
    args.push(String::from_str(value));
    assert(views(args@) =~= before + seq![flag@ + text::decimal(n as nat), value@]);
}

/// A number with text around it.
pub fn number_text(before: &str, n: u64, after: &str) -> (r: String)
    ensures
        r@ == before@ + text::decimal(n as nat) + after@,
{
    let mut r = String::from_str(before);
    text::push_decimal(&mut r, n);
    r.append(after);
    r
}

/// Two texts, one behind the other.
pub fn joined(a: &str, b: &str) -> (r: String)
    ensures
        r@ == a@ + b@,
{
    let mut r = String::from_str(a);
    r.append(b);
    r
}

} // verus!
