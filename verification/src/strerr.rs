//! Flattening of library errors into plain strings.

use vstd::prelude::*;
use crate::error::Error;

verus! {

/// Render a result's error as a `String`: the value passes through
/// untouched, the error becomes its message.
pub trait Strerr<T> {
    /// What the flattening returns, with the error as its rendered view.
    spec fn strerr_spec(&self) -> Result<T, Seq<char>>;

    fn strerr(self) -> (r: Result<T, String>)
        ensures
            (match self.strerr_spec() {
                Ok(v) => r matches Ok(w) && w == v,
                Err(m) => r matches Err(s) && s@ == m,
            }),
    ;
}

impl<T> Strerr<T> for Result<T, Error> {
    open spec fn strerr_spec(&self) -> Result<T, Seq<char>> {
        match self {
            Ok(v) => Ok(*v),
            Err(e) => Err(e.message_spec()),
        }
    }

    fn strerr(self) -> (r: Result<T, String>) {
        match self {
            Ok(v) => Ok(v),
            Err(e) => Err(e.message()),
        }
    }
}

} // verus!
