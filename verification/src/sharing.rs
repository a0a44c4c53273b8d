//! Shared ownership of values that the scanners and parsers hand out more
//! than once.

use vstd::prelude::*;

use std::rc::Rc;

verus! {

/// Another handle on the value of `r` (`Rc::clone`): it points to the same
/// allocation, so it holds the same value.
#[verifier::external_body]
pub fn share<T>(r: &Rc<T>) -> (s: Rc<T>)
    ensures
        s == *r,
{
    Rc::clone(r)
}

} // verus!
