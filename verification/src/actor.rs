//! What a request to an actor has to offer.

use vstd::prelude::*;

verus! {

/// Why a call could not be handled.
#[derive(Debug, PartialEq, Eq)]
pub struct CallError {
    pub reason: String,
}

pub trait HandleCall {
    type State;

    type Reply;

    /// Call by Actor. Handle the data received from the PID and return the reply
    fn handle_call(&self, state: &mut Self::State) -> Result<Self::Reply, CallError>;
}

} // verus!
