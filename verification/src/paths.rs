//! Path operations, which std performs by the conventions of the machine.
//!
//! What separates the parts of a path is for the machine to decide, so the contracts say which
//! operation was asked, and of what, and not which text it gave.

use crate::calls;
use std::path::Path;
use vstd::prelude::*;

verus! {

/// The last part of a path: `std::path::Path::file_name`. A path that ends in `..` or is a root
/// has none.
#[verifier::external_body]
fn path_file_name(path: &String) -> (name: Option<String>) {
    Path::new(path).file_name().map(|name| name.to_string_lossy().into_owned())
}

/// A path with a name adjoined: `std::path::Path::join`.
#[verifier::external_body]
fn path_join(base: &String, name: &String) -> (joined: String) {
    Path::new(base).join(name).to_string_lossy().into_owned()
}

/// Whether two paths are equal, part by part: `==` of `std::path::Path`. Equal texts are equal
/// paths.
#[verifier::external_body]
fn path_eq(a: &String, b: &String) -> (r: bool)
    ensures
        a@ == b@ ==> r,
{
    Path::new(a) == Path::new(b)
}

/// Whether this may be the last part of a path.
pub closed spec fn file_name_may_be(path: String, name: Option<String>) -> bool {
    call_ensures(path_file_name, (&path,), name)
}

/// Whether this may be a path with a name adjoined.
pub closed spec fn joined_may_be(base: String, name: String, joined: String) -> bool {
    call_ensures(path_join, (&base, &name), joined)
}

/// Whether two paths may be found equal, or may be found different.
pub closed spec fn sameness_may_be(a: String, b: String, same: bool) -> bool {
    call_ensures(path_eq, (&a, &b), same)
}

/// The last part of a path.
pub(crate) fn file_name(path: &String) -> (name: Option<String>)
    ensures
        file_name_may_be(*path, name),
{
    calls::call_on_string(&path_file_name, path)
}

/// A path with a name adjoined.
pub(crate) fn join(base: &String, name: &String) -> (joined: String)
    ensures
        joined_may_be(*base, *name, joined),
{
    calls::call_on_strings(&path_join, base, name)
}

/// Whether two paths are equal.
pub(crate) fn is_same(a: &String, b: &String) -> (r: bool)
    ensures
        sameness_may_be(*a, *b, r),
        a@ == b@ ==> r,
{
    calls::call_on_strings(&path_eq, a, b)
}

} // verus!
