//! What the server asks of a pool of worker threads.

use crate::errors::KvsError;
use vstd::prelude::*;

verus! {

/// A pool of threads that run tasks.
pub trait ThreadPool {
    /// A pool of `n_thread` threads.
    fn new(n_thread: usize) -> Result<Self, KvsError> where Self: Sized;

    /// Hands `task` to the pool, which runs it on one of its threads.
    fn spawn<F>(&self, task: F) where F: FnOnce() + Send + 'static;
}

} // verus!
