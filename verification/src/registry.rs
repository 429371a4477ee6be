//! Task registry: maps task-kind identifiers to executors and filters
//! announcements by capability.
//!
//! Registration happens once at startup; registering the same kind twice is
//! a configuration error reported then, never at runtime. Eligibility is a
//! pure predicate over the request's requirements and the node's advertised
//! capabilities: a request is eligible exactly when every required
//! capability bit is among the node's capability bits. Ineligible requests
//! are silently dropped by the orchestrator; they are expected and frequent,
//! not a fault.

use vstd::prelude::*;

use crate::codec::TaskRequest;

verus! {

/// A configuration error detected while the node is starting.
#[derive(Clone, Copy, PartialEq, Eq, Structural, Debug)]
pub enum ConfigError {
    /// Two executors were registered for the same task kind.
    DuplicateHandler,
}

/// A request is eligible when its required capability bits are all among
/// the node's advertised capability bits.
pub open spec fn eligible(requirements: u64, capabilities: u64) -> bool {
    requirements & capabilities == requirements
}

/// Checks a request's requirements against this node's capabilities.
/// Load is not consulted here; the coordinator's concurrency limit is.
pub fn is_eligible(req: &TaskRequest, capabilities: u64) -> (r: bool)
    ensures
        r == eligible(req.requirements, capabilities),
{
    req.requirements & capabilities == req.requirements
}

/// The registry of task kinds this node can execute. The executors
/// themselves run outside the event loop; the registry decides which kind
/// a request resolves to, and whether it resolves at all.
pub struct TaskRegistry {
    kinds: Vec<u64>,
}

impl TaskRegistry {
    /// The registered task kinds, in registration order.
    pub closed spec fn kinds_seq(self) -> Seq<u64> {
        self.kinds@
    }

    /// Whether an executor is registered for `kind`.
    pub open spec fn registered(self, kind: u64) -> bool {
        self.kinds_seq().contains(kind)
    }

    /// No task kind is registered twice.
    pub open spec fn wf(self) -> bool {
        forall|i: int, j: int|
            0 <= i < j < self.kinds_seq().len() ==> self.kinds_seq()[i] != self.kinds_seq()[j]
    }

    /// An empty registry, filled during startup.
    pub fn new() -> (r: TaskRegistry)
        ensures
            r.wf(),
            r.kinds_seq().len() == 0,
    {
        TaskRegistry { kinds: Vec::new() }
    }

    /// Associates an executor with a task kind. Registering a kind twice is
    /// a configuration error and leaves the registry unchanged.
    pub fn register(&mut self, kind: u64) -> (r: Result<(), ConfigError>)
        requires
            old(self).wf(),
        ensures
            final(self).wf(),
            r is Ok <==> !old(self).registered(kind),
            r is Ok ==> final(self).kinds_seq() == old(self).kinds_seq().push(kind),
            r is Err ==> final(self).kinds_seq() == old(self).kinds_seq(),
            forall|k: u64| final(self).registered(k) <==> (old(self).registered(k) || (r is Ok && k == kind)),
    {
        if self.contains_kind(kind) {
            Err(ConfigError::DuplicateHandler)
        } else {
            self.kinds.push(kind);
            proof {
                let s = old(self).kinds_seq();
                assert forall|k: u64|
                    self.registered(k) <==> (old(self).registered(k) || k == kind) by {
                    assert(self.kinds_seq() == s.push(kind));
                    if self.registered(k) {
                        let i = choose|i: int|
                            0 <= i < s.push(kind).len() && s.push(kind)[i] == k;
                        if i < s.len() {
                            assert(s[i] == k);
                        }
                    }
                    if old(self).registered(k) {
                        let i = choose|i: int| 0 <= i < s.len() && s[i] == k;
                        assert(s.push(kind)[i] == k);
                    }
                    if k == kind {
                        assert(s.push(kind)[s.len() as int] == k);
                    }
                }
            }
            Ok(())
        }
    }

    /// Whether an executor is registered for `kind`.
    pub fn contains_kind(&self, kind: u64) -> (r: bool)
        ensures
            r == self.registered(kind),
    {
        let mut i: usize = 0;
        while i < self.kinds.len()
            invariant
                0 <= i <= self.kinds@.len(),
                forall|j: int| 0 <= j < i ==> self.kinds@[j] != kind,
            decreases self.kinds@.len() - i,
        {
            if self.kinds[i] == kind {
                return true;
            }
            i = i + 1;
        }
        false
    }

    /// How many task kinds are registered.
    pub fn len(&self) -> (r: usize)
        ensures
            r == self.kinds_seq().len(),
    {
        self.kinds.len()
    }
}

} // verus!
