//! The handle of a server that listens.

use std::future::Future;
use vstd::prelude::*;

verus! {

/// A server that listens. All there is to do with it is to await `future`,
/// which runs until the listener ends or fails.
pub struct DevServerListening<F: Future> {
    pub future: F,
}

impl<F: Future> DevServerListening<F> {
    /// The handle of the listener that `future` runs.
    pub fn new(future: F) -> (listening: Self)
        ensures
            listening.future == future,
    {
        DevServerListening { future }
    }
}

} // verus!
