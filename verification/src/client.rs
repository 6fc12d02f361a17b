//! Readiness state of the data store client.
//!
//! The store itself is an external collaborator reached over a single lazily
//! created connection. This module keeps the decision logic of that client:
//! when a call must first initialize the connection, and that a failed
//! initialization is retried on the next call instead of poisoning the
//! client for good. The driver performs the actual connection attempt and
//! reports its outcome here.

use vstd::prelude::*;

use crate::task::OrchError;

verus! {

/// Decision state of the lazily initialized, process-wide data store client.
pub struct StoreClient {
    ready: bool,
}

impl StoreClient {
    /// Whether a usable connection has been established.
    pub closed spec fn is_ready(self) -> bool {
        self.ready
    }

    /// A fresh client starts with no connection.
    pub fn new() -> (r: StoreClient)
        ensures
            !r.is_ready(),
    {
        StoreClient { ready: false }
    }

    /// Whether the next query or execute call must first attempt to
    /// initialize the connection.
    pub fn needs_init(&self) -> (r: bool)
        ensures
            r == !self.is_ready(),
    {
        !self.ready
    }

    /// Record the outcome of one initialization attempt. Success makes the
    /// client ready; failure leaves it exactly as it was, so the next call
    /// retries instead of finding a poisoned client.
    pub fn note_init(&mut self, ok: bool)
        ensures
            final(self).is_ready() == (old(self).is_ready() || ok),
    {
        if ok {
            self.ready = true;
        }
    }

    /// Gate one query or execute call: allowed exactly when a connection is
    /// ready, otherwise the caller gets `StoreUnavailable` for this one
    /// operation only.
    pub fn check_available(&self) -> (r: Result<(), OrchError>)
        ensures
            r is Ok <==> self.is_ready(),
            r is Err ==> r == Err::<(), OrchError>(OrchError::StoreUnavailable),
    {
        if self.ready {
            Ok(())
        } else {
            Err(OrchError::StoreUnavailable)
        }
    }
}

} // verus!
