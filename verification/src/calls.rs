//! Calls that are remembered: after them it is known that the function may give this result.

use vstd::prelude::*;

verus! {

/// Calls a function without arguments.
pub(crate) fn call_plain<R, F: Fn() -> R>(f: &F) -> (r: R)
    requires
        call_requires(*f, ()),
    ensures
        call_ensures(*f, (), r),
{
    f()
}

/// Calls a function of two texts.
pub(crate) fn call_on_texts<R, F: Fn(&str, &str) -> R>(f: &F, a: &str, b: &str) -> (r: R)
    requires
        call_requires(*f, (a, b)),
    ensures
        call_ensures(*f, (a, b), r),
{
    f(a, b)
}

/// Calls a function of bytes and a number.
pub(crate) fn call_on_bytes<R, F: Fn(&[u8], i32) -> R>(f: &F, a: &[u8], b: i32) -> (r: R)
    requires
        call_requires(*f, (a, b)),
    ensures
        call_ensures(*f, (a, b), r),
{
    f(a, b)
}

/// Calls a function of an owned text.
pub(crate) fn call_on_string<R, F: Fn(&String) -> R>(f: &F, a: &String) -> (r: R)
    requires
        call_requires(*f, (a,)),
    ensures
        call_ensures(*f, (a,), r),
{
    f(a)
}

/// Calls a function of two owned texts.
pub(crate) fn call_on_strings<R, F: Fn(&String, &String) -> R>(
    f: &F,
    a: &String,
    b: &String,
) -> (r: R)
    requires
        call_requires(*f, (a, b)),
    ensures
        call_ensures(*f, (a, b), r),
{
    f(a, b)
}

} // verus!
