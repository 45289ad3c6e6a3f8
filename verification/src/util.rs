//! Conveniences for results whose errors are reported elsewhere and then
//! dropped.

use vstd::prelude::*;

verus! {

/// Turning a result into an optional success, discarding the error after
/// it has been reported. Reporting itself is the embedding application's
/// concern, so these methods only say what happens to the value.
pub trait ResultExt<E>: Sized {
    type Ok;

    /// The success value, if any; a discarded error counts as reported at
    /// error severity.
    fn log_err(self) -> Option<Self::Ok>;

    /// The success value, if any; a discarded error counts as reported at
    /// warning severity.
    fn warn_on_err(self) -> Option<Self::Ok>;

    /// Flags a result that should never be an error; the result passes
    /// through unchanged.
    fn debug_assert_ok(self, reason: &str) -> Self;
}

impl<T, E> ResultExt<E> for Result<T, E> {
    type Ok = T;

    fn log_err(self) -> (r: Option<T>)
        ensures
            r == match self {
                Ok(v) => Some(v),
                Err(_) => None::<T>,
            },
    {
        match self {
            Ok(v) => Some(v),
            Err(_) => None,
        }
    }

    fn warn_on_err(self) -> (r: Option<T>)
        ensures
            r == match self {
                Ok(v) => Some(v),
                Err(_) => None::<T>,
            },
    {
        match self {
            Ok(v) => Some(v),
            Err(_) => None,
        }
    }

    fn debug_assert_ok(self, reason: &str) -> (r: Self)
        ensures
            r == self,
    {
        let _ = reason;
        self
    }
}

} // verus!
