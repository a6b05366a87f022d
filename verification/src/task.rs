//! The vocabulary of polling.

use vstd::prelude::*;

verus! {

/// Whether an answer is there yet.
#[derive(Clone, Copy, Debug, PartialEq, Eq)]
pub enum Async<T> {
    /// The answer.
    Ready(T),
    /// No answer yet; whoever asked is woken when asking again is worth it.
    NotReady,
}

/// What a poll comes back with.
pub type Poll<T, E> = Result<Async<T>, E>;

} // verus!
