//! The worker execution engine's state machine. A worker instance is a
//! short-lived sandbox owned by exactly one request: created from a
//! compiled module with its capability set and encoded call attached,
//! started once, and driven to exactly one terminal state by the first
//! event the sandbox reports — completion, a trap, the deadline, or the
//! memory ceiling. The sandbox runtime itself lives outside this crate;
//! the surrounding server performs the run and hands the resulting event
//! back to `observe`, which fixes the outcome, and tears the instance down
//! unconditionally afterwards.

use vstd::prelude::*;
use crate::bridge::WorkerCall;
use crate::bridge::WorkerOutput;
use crate::bridge::WorkerOutputV;
use crate::capabilities::CapabilityRegistry;
use crate::capabilities::FetchDecision;
use crate::capabilities::gate_http_fetch;
use crate::capabilities::spec_fetch_decision;
use crate::store::CompiledModule;

verus! {

/// The lifecycle of one worker instance. The four right-hand states are
/// terminal: there is no resumption.
#[derive(Clone, Copy, PartialEq, Eq, Structural, Debug)]
pub enum WorkerState {
    Created,
    Running,
    Completed,
    Trapped,
    TimedOut,
    LimitExceeded,
}

pub open spec fn spec_is_terminal(s: WorkerState) -> bool {
    s == WorkerState::Completed || s == WorkerState::Trapped || s == WorkerState::TimedOut || s
        == WorkerState::LimitExceeded
}

/// The bounds one execution runs under: a wall-clock deadline and a memory
/// ceiling, so no worker can starve unrelated requests.
#[derive(Clone, Copy, PartialEq, Eq, Structural, Debug)]
pub struct ResourceLimits {
    pub deadline_ms: u64,
    pub memory_limit_bytes: u64,
}

/// The first thing the sandbox reports about a running worker.
pub enum ExecutionEvent {
    /// The entry point returned this output.
    Finished(WorkerOutput),
    /// The guest trapped, with the runtime's reason.
    Trapped(String),
    /// The wall-clock deadline passed first.
    DeadlineExpired,
    /// The memory ceiling was hit first.
    MemoryExceeded,
}

/// The mathematical value of an `ExecutionEvent`.
pub ghost enum ExecutionEventV {
    Finished(WorkerOutputV),
    Trapped(Seq<char>),
    DeadlineExpired,
    MemoryExceeded,
}

impl View for ExecutionEvent {
    type V = ExecutionEventV;

    open spec fn view(&self) -> ExecutionEventV {
        match self {
            ExecutionEvent::Finished(o) => ExecutionEventV::Finished(o@),
            ExecutionEvent::Trapped(r) => ExecutionEventV::Trapped(r@),
            ExecutionEvent::DeadlineExpired => ExecutionEventV::DeadlineExpired,
            ExecutionEvent::MemoryExceeded => ExecutionEventV::MemoryExceeded,
        }
    }
}

/// What one invocation yields; produced exactly once.
pub enum ExecutionOutcome {
    Success(WorkerOutput),
    Trap(String),
    Timeout,
    ResourceLimitExceeded,
}

/// The mathematical value of an `ExecutionOutcome`.
pub ghost enum ExecutionOutcomeV {
    Success(WorkerOutputV),
    Trap(Seq<char>),
    Timeout,
    ResourceLimitExceeded,
}

impl View for ExecutionOutcome {
    type V = ExecutionOutcomeV;

    open spec fn view(&self) -> ExecutionOutcomeV {
        match self {
            ExecutionOutcome::Success(o) => ExecutionOutcomeV::Success(o@),
            ExecutionOutcome::Trap(r) => ExecutionOutcomeV::Trap(r@),
            ExecutionOutcome::Timeout => ExecutionOutcomeV::Timeout,
            ExecutionOutcome::ResourceLimitExceeded => ExecutionOutcomeV::ResourceLimitExceeded,
        }
    }
}

/// The outcome each event fixes.
pub open spec fn spec_outcome_of(ev: ExecutionEventV) -> ExecutionOutcomeV {
    match ev {
        ExecutionEventV::Finished(o) => ExecutionOutcomeV::Success(o),
        ExecutionEventV::Trapped(r) => ExecutionOutcomeV::Trap(r),
        ExecutionEventV::DeadlineExpired => ExecutionOutcomeV::Timeout,
        ExecutionEventV::MemoryExceeded => ExecutionOutcomeV::ResourceLimitExceeded,
    }
}

/// The terminal state each event drives the instance to.
pub open spec fn spec_state_after(ev: ExecutionEventV) -> WorkerState {
    match ev {
        ExecutionEventV::Finished(_) => WorkerState::Completed,
        ExecutionEventV::Trapped(_) => WorkerState::Trapped,
        ExecutionEventV::DeadlineExpired => WorkerState::TimedOut,
        ExecutionEventV::MemoryExceeded => WorkerState::LimitExceeded,
    }
}

/// One request's sandbox: exclusively owned, never shared or reused, torn
/// down when the request completes, traps, or times out. Its capability
/// set and encoded call are attached at instantiation and immutable for
/// its lifetime.
pub struct WorkerInstance {
    pub handler_path: String,
    pub capabilities: CapabilityRegistry,
    pub call: WorkerCall,
    pub state: WorkerState,
}

impl WorkerInstance {
    /// A fresh, isolated instance of a compiled module, with the
    /// capability set as its only host-callable surface and the encoded
    /// request attached.
    pub fn instantiate(
        module: &CompiledModule,
        capabilities: CapabilityRegistry,
        call: WorkerCall,
    ) -> (w: WorkerInstance)
        ensures
            w.state == WorkerState::Created,
            w.handler_path@ == module@.path,
            w.capabilities@ == capabilities@,
            w.call@ == call@,
    {
        WorkerInstance {
            handler_path: module.path.clone(),
            capabilities,
            call,
            state: WorkerState::Created,
        }
    }

    /// Invokes the designated entry point: the instance starts running.
    pub fn start(&mut self)
        requires
            old(self).state == WorkerState::Created,
        ensures
            final(self).state == WorkerState::Running,
            final(self).handler_path@ == old(self).handler_path@,
            final(self).capabilities@ == old(self).capabilities@,
            final(self).call@ == old(self).call@,
    {
        self.state = WorkerState::Running;
    }

    /// Takes the first event the sandbox reports and fixes the one outcome
    /// of this invocation; the instance reaches a terminal state and never
    /// runs again.
    pub fn observe(&mut self, event: ExecutionEvent) -> (outcome: ExecutionOutcome)
        requires
            old(self).state == WorkerState::Running,
        ensures
            final(self).state == spec_state_after(event@),
            spec_is_terminal(final(self).state),
            outcome@ == spec_outcome_of(event@),
            final(self).handler_path@ == old(self).handler_path@,
            final(self).capabilities@ == old(self).capabilities@,
            final(self).call@ == old(self).call@,
    {
        match event {
            ExecutionEvent::Finished(o) => {
                self.state = WorkerState::Completed;
                ExecutionOutcome::Success(o)
            },
            ExecutionEvent::Trapped(r) => {
                self.state = WorkerState::Trapped;
                ExecutionOutcome::Trap(r)
            },
            ExecutionEvent::DeadlineExpired => {
                self.state = WorkerState::TimedOut;
                ExecutionOutcome::Timeout
            },
            ExecutionEvent::MemoryExceeded => {
                self.state = WorkerState::LimitExceeded;
                ExecutionOutcome::ResourceLimitExceeded
            },
        }
    }

    /// The instance's one gate to host I/O: a guest fetch proceeds only on
    /// an `Allowed` answer from the attached capability set.
    pub fn guest_fetch_decision(&self, host: &String) -> (r: FetchDecision)
        ensures
            r == spec_fetch_decision(self.capabilities@, host@),
    {
        gate_http_fetch(&self.capabilities, host)
    }
}

/// Whether the wall clock has passed the deadline; answering `true` forces
/// the `DeadlineExpired` event.
pub fn deadline_exceeded(elapsed_ms: u64, limits: &ResourceLimits) -> (r: bool)
    ensures
        r == (elapsed_ms >= limits.deadline_ms),
{
    elapsed_ms >= limits.deadline_ms
}

/// Whether the instance has outgrown its memory ceiling; answering `true`
/// forces the `MemoryExceeded` event.
pub fn memory_exceeded(used_bytes: u64, limits: &ResourceLimits) -> (r: bool)
    ensures
        r == (used_bytes > limits.memory_limit_bytes),
{
    used_bytes > limits.memory_limit_bytes
}

} // verus!
