use vstd::prelude::*;

verus! {

/// An error code in the kernel's `errno` numbering.
#[derive(Clone, Copy, Debug, PartialEq, Eq, Structural)]
pub struct Errno(pub i32);

/// Splits the outcome of an operation into the value handed back to the
/// caller and the error code to publish, if any: on failure the caller gets
/// `def` and the error travels beside it.
pub fn extract<T>(res: Result<T, Errno>, def: T) -> (r: (T, Option<Errno>))
    ensures
        match res {
            Ok(v) => r == (v, None::<Errno>),
            Err(e) => r == (def, Some(e)),
        },
{
    match res {
        Ok(v) => (v, None),
        Err(e) => (def, Some(e)),
    }
}

} // verus!
