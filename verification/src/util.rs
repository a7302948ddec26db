//! Small conveniences shared across the crate.

use vstd::prelude::*;

verus! {

/// The default value of the type the caller asks for, with whatever that
/// type's `Default` promises.
pub fn default<T: Default>() -> (r: T)
    ensures
        call_ensures(T::default, (), r),
{
    T::default()
}

} // verus!
