//! The one-shot guard behind each response callback: the first invocation
//! delivers the job's response, any later one is refused and reported.
use vstd::prelude::*;

verus! {

/// Why a callback invocation was refused.
#[derive(Clone, Copy, Debug, PartialEq, Eq, Structural)]
pub enum CallbackError {
    /// The callback of this job has already delivered its response.
    AlreadyInvoked { job_id: u64 },
}

/// The state of one job's callback.
#[derive(Clone, Copy, Debug, PartialEq, Eq, Structural)]
pub struct ResponseSlot {
    pub job_id: u64,
    pub used: bool,
}

/// The next state and the outcome of invoking a callback.
pub open spec fn slot_invoke(s: ResponseSlot) -> (ResponseSlot, Result<u64, CallbackError>) {
    if s.used {
        (s, Err(CallbackError::AlreadyInvoked { job_id: s.job_id }))
    } else {
        (ResponseSlot { used: true, ..s }, Ok(s.job_id))
    }
}

impl ResponseSlot {
    /// A fresh callback for the job `job_id`.
    pub fn new(job_id: u64) -> (s: ResponseSlot)
        ensures
            s == (ResponseSlot { job_id, used: false }),
    {
        ResponseSlot { job_id, used: false }
    }

    /// Invokes the callback: the first time it yields the job whose response is
    /// to be delivered; every later time it is refused.
    pub fn invoke(&mut self) -> (r: Result<u64, CallbackError>)
        ensures
            (*final(self), r) == slot_invoke(*old(self)),
    {
        if self.used {
            Err(CallbackError::AlreadyInvoked { job_id: self.job_id })
        } else {
            self.used = true;
            Ok(self.job_id)
        }
    }
}

/// A callback delivers at most once: of two invocations of the same callback,
/// the second is always refused as a repeat, whatever came before.
pub proof fn lemma_invoked_at_most_once(s: ResponseSlot)
    ensures
        slot_invoke(slot_invoke(s).0).1 == Err::<u64, CallbackError>(
            CallbackError::AlreadyInvoked { job_id: s.job_id },
        ),
        !s.used ==> slot_invoke(s).1 == Ok::<u64, CallbackError>(s.job_id),
{
}

} // verus!
