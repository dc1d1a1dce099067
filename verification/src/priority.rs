//! The platform capability of changing a thread's scheduling priority. The
//! group and controller logic depends only on this interface, so the same
//! bookkeeping works on every target platform; a platform without the
//! capability refuses requests instead of crashing the caller.

use vstd::prelude::*;

verus! {

/// The platform refused a scheduling request; surfaced to the caller, never
/// silently ignored.
#[derive(Clone, Copy, PartialEq, Eq, Structural, Debug)]
pub enum PriorityError {
    /// The platform offers no way to re-prioritize threads.
    Unsupported,
    /// The platform rejected this request: insufficient privilege or an
    /// invalid thread identifier.
    Denied,
}

/// The capability of asking the platform scheduler to change one thread's
/// priority. Every attempt is recorded in the capability's log together
/// with the platform's answer, so callers can state exactly which requests
/// they made and that they forward each answer unchanged.
pub trait PriorityController {
    /// All requests made through this capability so far, in order: the
    /// thread identifier and the requested level of each, paired with the
    /// answer the platform gave.
    spec fn log(&self) -> Seq<((u32, i32), Result<(), PriorityError>)>;

    /// Whatever consistency the capability promises about its own state and
    /// log; every request preserves it, so callers may carry it through any
    /// sequence of requests.
    spec fn wf(&self) -> bool;

    /// The two states answer requests from the same configuration: a
    /// request may extend the log, but never reconfigures the capability.
    spec fn same_config(&self, other: &Self) -> bool;

    /// Configuration stability is reflexive, so it holds over an empty
    /// sequence of requests.
    proof fn lemma_same_config_refl(a: &Self)
        ensures
            a.same_config(a),
    ;

    /// Configuration stability chains across successive requests.
    proof fn lemma_same_config_trans(a: &Self, b: &Self, c: &Self)
        requires
            a.same_config(b),
            b.same_config(c),
        ensures
            a.same_config(c),
    ;

    /// Ask the platform to set the priority of thread `pid` to `priority`.
    /// A refusal is reported through the result; the attempt and its answer
    /// are logged either way, and the result is exactly the logged answer.
    fn set_priority(&mut self, pid: u32, priority: i32) -> (r: Result<(), PriorityError>)
        ensures
            final(self).log() == old(self).log().push(((pid, priority), r)),
            old(self).wf() ==> final(self).wf(),
            old(self).same_config(final(self)),
    ;
}

/// A priority controller that records every request and grants or refuses
/// them by configuration. It stands in for platforms without the scheduling
/// capability and lets the propagation logic be exercised deterministically.
pub struct RecordingPriorityController {
    calls: Vec<((u32, i32), Result<(), PriorityError>)>,
    denial: Option<(usize, PriorityError)>,
}

impl RecordingPriorityController {
    /// The configured refusal: every request from this call index on is
    /// answered with the given error.
    pub closed spec fn spec_denial(&self) -> Option<(usize, PriorityError)> {
        self.denial
    }

    /// The answer the configuration dictates for request number `k`.
    pub open spec fn answer_at(&self, k: int) -> Result<(), PriorityError> {
        match self.spec_denial() {
            Some((from, error)) => if k >= from {
                Err(error)
            } else {
                Ok(())
            },
            None => Ok(()),
        }
    }

    /// A controller that grants every request.
    pub fn new() -> (c: RecordingPriorityController)
        ensures
            c.log() == Seq::<((u32, i32), Result<(), PriorityError>)>::empty(),
            c.spec_denial() is None,
            c.wf(),
    {
        RecordingPriorityController { calls: Vec::new(), denial: None }
    }

    /// A controller that grants requests until call number `from` and
    /// answers that one and all later ones with `error`.
    pub fn denying_from(from: usize, error: PriorityError) -> (c: RecordingPriorityController)
        ensures
            c.log() == Seq::<((u32, i32), Result<(), PriorityError>)>::empty(),
            c.spec_denial() == Some((from, error)),
            c.wf(),
    {
        RecordingPriorityController { calls: Vec::new(), denial: Some((from, error)) }
    }

    /// The requests recorded so far, each with its answer.
    pub fn calls(&self) -> (r: &Vec<((u32, i32), Result<(), PriorityError>)>)
        ensures
            r@ == self.log(),
    {
        &self.calls
    }
}

impl PriorityController for RecordingPriorityController {
    closed spec fn log(&self) -> Seq<((u32, i32), Result<(), PriorityError>)> {
        self.calls@
    }

    /// Every logged answer is the one the denial configuration dictates for
    /// its request number.
    open spec fn wf(&self) -> bool {
        forall|k: int| 0 <= k < self.log().len() ==> (#[trigger] self.log()[k]).1 == self.answer_at(k)
    }

    /// The denial configuration is the capability's whole configuration.
    open spec fn same_config(&self, other: &Self) -> bool {
        self.spec_denial() == other.spec_denial()
    }

    proof fn lemma_same_config_refl(a: &Self) {
    }

    proof fn lemma_same_config_trans(a: &Self, b: &Self, c: &Self) {
    }

    fn set_priority(&mut self, pid: u32, priority: i32) -> (r: Result<(), PriorityError>)
        ensures
            final(self).spec_denial() == old(self).spec_denial(),
            r == (match old(self).spec_denial() {
                Some((from, error)) => if old(self).log().len() >= from {
                    Err::<(), PriorityError>(error)
                } else {
                    Ok::<(), PriorityError>(())
                },
                None => Ok::<(), PriorityError>(()),
            }),
    {
        let r = match self.denial {
            Some((from, error)) => if self.calls.len() >= from {
                Err(error)
            } else {
                Ok(())
            },
            None => Ok(()),
        };
        self.calls.push(((pid, priority), r));
        r
    }
}

} // verus!
