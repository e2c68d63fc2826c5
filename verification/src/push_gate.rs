//! Back-pressure for stripes pushed to a fork.
//!
//! The subscriber reads pushes as fast as the network delivers them, and the
//! worker that writes them to disk is also serving the guest. Without a limit
//! the difference lands in the fork's memory. A fork that cannot keep up stops
//! reading instead, and the pressure reaches the server as a push that takes
//! longer to write.

use vstd::prelude::*;

verus! {

/// Stripes that may be waiting for the worker at once. Small: it exists to
/// smooth over the worker being busy, not to store the server's writes.
pub const MAX_QUEUED_PUSHES: usize = 64;

/// Counts the pushes on their way to the worker.
#[derive(Debug)]
pub struct PushGate {
    /// Slots taken.
    pub queued: usize,
    /// Slots there are.
    pub limit: usize,
}

/// Held by a pushed stripe on its way to the worker, and given back once the
/// worker has taken it or the push is dropped. It cannot be copied, so a slot
/// comes back at most once.
#[derive(Debug, PartialEq, Eq)]
pub struct PushPermit {
    /// Whether the permit stands for a slot.
    pub gated: bool,
}

impl PushGate {
    /// No more slots are taken than there are.
    pub open spec fn wf(self) -> bool {
        self.queued <= self.limit
    }

    /// After a slot was asked for: it is taken, if there is one.
    pub open spec fn after_acquire(self) -> PushGate {
        if self.queued < self.limit {
            PushGate { queued: (self.queued + 1) as usize, ..self }
        } else {
            self
        }
    }

    /// After a permit came back, with its slot if it stands for one.
    pub open spec fn after_release(self, permit: PushPermit) -> PushGate {
        if permit.gated && self.queued > 0 {
            PushGate { queued: (self.queued - 1) as usize, ..self }
        } else {
            self
        }
    }

    /// A gate with `limit` free slots.
    pub fn new(limit: usize) -> (gate: PushGate)
        ensures
            gate.queued == 0,
            gate.limit == limit,
            gate.wf(),
    {
        PushGate { queued: 0, limit }
    }

    /// Take a slot. Nothing comes back while the worker is behind; the caller
    /// then waits for a release.
    pub fn acquire(&mut self) -> (r: Option<PushPermit>)
        requires
            old(self).wf(),
        ensures
            final(self).wf(),
            *final(self) == old(self).after_acquire(),
            r == (if old(self).queued < old(self).limit {
                Some(PushPermit { gated: true })
            } else {
                None
            }),
    {
        if self.queued >= self.limit {
            return None;
        }
        self.queued = self.queued + 1;
        Some(PushPermit { gated: true })
    }

    /// Slots taken.
    pub fn queued(&self) -> (r: usize)
        ensures
            r == self.queued,
    {
        self.queued
    }

    /// A permit comes back, and its slot with it.
    pub fn release(&mut self, permit: PushPermit)
        requires
            old(self).wf(),
        ensures
            final(self).wf(),
            *final(self) == old(self).after_release(permit),
    {
        if permit.gated {
            self.queued = self.queued.saturating_sub(1);
        }
    }
}

/// What can be done with a gate.
pub enum GateStep {
    /// A slot is asked for.
    Acquire,
    /// A permit comes back.
    Release { permit: PushPermit },
}

/// A gate after all steps.
pub open spec fn gate_after(gate: PushGate, steps: Seq<GateStep>) -> PushGate
    decreases steps.len(),
{
    if steps.len() == 0 {
        gate
    } else {
        let before = gate_after(gate, steps.drop_last());
        match steps.last() {
            GateStep::Acquire => before.after_acquire(),
            GateStep::Release { permit } => before.after_release(permit),
        }
    }
}

/// How many permits that stand for a slot were given out and have not come
/// back.
pub open spec fn live_permits(gate: PushGate, steps: Seq<GateStep>) -> int
    decreases steps.len(),
{
    if steps.len() == 0 {
        0
    } else {
        let before = gate_after(gate, steps.drop_last());
        live_permits(gate, steps.drop_last()) + match steps.last() {
            GateStep::Acquire => if before.queued < before.limit {
                1int
            } else {
                0
            },
            GateStep::Release { permit } => if permit.gated {
                -1int
            } else {
                0
            },
        }
    }
}

/// Only permits that were given out come back.
pub open spec fn permits_of_the_gate(gate: PushGate, steps: Seq<GateStep>) -> bool
    decreases steps.len(),
{
    steps.len() == 0 || {
        &&& permits_of_the_gate(gate, steps.drop_last())
        &&& steps.last() matches GateStep::Release { permit } ==> permit.gated ==> live_permits(
            gate,
            steps.drop_last(),
        ) > 0
    }
}

/// The slots taken are as many as the live permits, in whatever order permits
/// are given out and come back. So no more than `limit` are live at a time, a
/// slot is given out exactly while fewer are, and a permit that comes back
/// frees exactly one.
pub proof fn law_slots_taken_are_the_live_permits(gate: PushGate, steps: Seq<GateStep>)
    requires
        gate.queued == 0,
        permits_of_the_gate(gate, steps),
    ensures
        ({
            let now = gate_after(gate, steps);
            &&& now.queued == live_permits(gate, steps)
            &&& now.limit == gate.limit
            &&& now.wf()
            &&& live_permits(gate, steps) < gate.limit ==> 1 <= now.after_acquire().queued
                <= gate.limit && now.after_acquire().queued == live_permits(gate, steps) + 1
            &&& live_permits(gate, steps) == gate.limit ==> now.after_acquire() == now
            &&& live_permits(gate, steps) > 0 ==> now.after_release(
                PushPermit { gated: true },
            ).queued == now.queued - 1
        }),
    decreases steps.len(),
{
    if steps.len() > 0 {
        law_slots_taken_are_the_live_permits(gate, steps.drop_last());
    }
}

impl PushPermit {
    /// A permit that gates nothing, for callers with no subscriber behind
    /// them.
    pub fn unbounded() -> (r: PushPermit)
        ensures
            r == (PushPermit { gated: false }),
    {
        PushPermit { gated: false }
    }
}

} // verus!
