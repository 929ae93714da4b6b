//! Rewording of the error that a result carries.

use crate::errors::ErrorKind;
use vstd::prelude::*;

verus! {

/// Operations on the error of a result.
pub trait DebugExt<T>: Sized {
    /// The result that the value stands for.
    spec fn result(self) -> Result<T, ErrorKind>;

    /// Replaces the error, if there is one, by what `op` makes of it. A
    /// success passes through, and `op` is not called.
    fn convert_err<F>(self, op: F) -> (out: Result<T, ErrorKind>) where
        F: FnOnce(ErrorKind) -> ErrorKind,

        requires
            self.result() is Err ==> op.requires((self.result()->Err_0,)),
        ensures
            match self.result() {
                Ok(value) => out == Ok::<T, ErrorKind>(value),
                Err(err) => out is Err && op.ensures((err,), out->Err_0),
            },
    ;
}

impl<T> DebugExt<T> for Result<T, ErrorKind> {
    open spec fn result(self) -> Result<T, ErrorKind> {
        self
    }

    fn convert_err<F>(self, op: F) -> (out: Result<T, ErrorKind>) where
        F: FnOnce(ErrorKind) -> ErrorKind,
     {
        match self {
            Ok(value) => Ok(value),
            Err(err) => Err(op(err)),
        }
    }
}

} // verus!
