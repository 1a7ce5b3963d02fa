//! Typed messages behind a type-erasing boundary: a boxed message can be
//! recovered at its concrete type by a checked cast that fails on a
//! mismatch instead of reinterpreting memory.

use vstd::prelude::*;

verus! {

/// A message that can travel through the type-erased cast below. The
/// `'static` bound is what allows the runtime type check.
pub trait Message: 'static {

}

/// Relies on `Box::<dyn core::any::Any>::downcast`: the result is `Ok` with
/// the same value exactly when the boxed value's concrete type is the
/// requested one, and `Err` with the box given back otherwise. What the
/// runtime type test decides is not visible to the verifier, so nothing is
/// promised of the outcome.
#[verifier::external_body]
pub fn cast<M: Message, T: Message>(msg: Box<M>) -> (r: Option<T>) {
    let any: Box<dyn core::any::Any> = msg;
    match any.downcast::<T>() {
        Ok(b) => Some(*b),
        Err(_) => None,
    }
}

} // verus!
