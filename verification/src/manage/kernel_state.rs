//! The phase that the kernel is in.

use vstd::prelude::*;

verus! {

/// The phase that the kernel is in.
#[derive(Clone, Copy, Debug, PartialEq, Eq, Structural)]
pub enum KernelState {
    Init(KernelInitState),
    Runtime(KernelRuntimeState),
    Shutdown(KernelShutdownState),
    Panic,
}

/// What the kernel is initialising.
#[derive(Clone, Copy, Debug, PartialEq, Eq, Structural)]
pub enum KernelInitState {
    Unknown,
    Base,
    Memory,
}

/// What the kernel is running.
#[derive(Clone, Copy, Debug, PartialEq, Eq, Structural)]
pub enum KernelRuntimeState {
    Unknown,
}

/// What the kernel is shutting down.
#[derive(Clone, Copy, Debug, PartialEq, Eq, Structural)]
pub enum KernelShutdownState {
    Unknown,
}

impl KernelInitState {
    /// The name of the step.
    pub open spec fn name(&self) -> Seq<char> {
        match self {
            KernelInitState::Unknown => "unknown"@,
            KernelInitState::Base => "BASE"@,
            KernelInitState::Memory => "Memory"@,
        }
    }

    pub fn as_str(&self) -> (r: &'static str)
        ensures
            r@ == self.name(),
    {
        match self {
            KernelInitState::Unknown => "unknown",
            KernelInitState::Base => "BASE",
            KernelInitState::Memory => "Memory",
        }
    }
}

impl KernelRuntimeState {
    /// The name of the task.
    pub open spec fn name(&self) -> Seq<char> {
        match self {
            KernelRuntimeState::Unknown => "unknown"@,
        }
    }

    pub fn as_str(&self) -> (r: &'static str)
        ensures
            r@ == self.name(),
    {
        match self {
            KernelRuntimeState::Unknown => "unknown",
        }
    }
}

impl KernelShutdownState {
    /// The name of the task.
    pub open spec fn name(&self) -> Seq<char> {
        match self {
            KernelShutdownState::Unknown => "unknown"@,
        }
    }

    pub fn as_str(&self) -> (r: &'static str)
        ensures
            r@ == self.name(),
    {
        match self {
            KernelShutdownState::Unknown => "unknown",
        }
    }
}

impl KernelState {
    /// The name of the phase: the name of its step or task, and `PANIC` for
    /// a kernel that has panicked.
    pub open spec fn name(&self) -> Seq<char> {
        match self {
            KernelState::Init(step) => step.name(),
            KernelState::Runtime(task) => task.name(),
            KernelState::Shutdown(task) => task.name(),
            KernelState::Panic => "PANIC"@,
        }
    }

    /// The words with which a panic report introduces the phase.
    pub open spec fn report_lead(&self) -> Seq<char> {
        match self {
            KernelState::Init(_) => "while initializing "@,
            KernelState::Runtime(_) => "at runtime task "@,
            KernelState::Shutdown(_) => "at shutdown task "@,
            KernelState::Panic => "already in panic"@,
        }
    }

    pub fn as_str(&self) -> (r: &'static str)
        ensures
            r@ == self.name(),
    {
        match self {
            KernelState::Init(step) => step.as_str(),
            KernelState::Runtime(task) => task.as_str(),
            KernelState::Shutdown(task) => task.as_str(),
            KernelState::Panic => "PANIC",
        }
    }

    /// The line of a panic report that tells the phase in which the kernel
    /// panicked: its lead, and the name that follows the lead. A kernel that
    /// had panicked already is reported without a name.
    pub fn panic_phase(&self) -> (r: (&'static str, Option<&'static str>))
        ensures
            r.0@ == self.report_lead(),
            r.1 is None <==> *self == KernelState::Panic,
            r.1 matches Some(name) ==> name@ == self.name(),
    {
        match self {
            KernelState::Init(step) => ("while initializing ", Some(step.as_str())),
            KernelState::Runtime(task) => ("at runtime task ", Some(task.as_str())),
            KernelState::Shutdown(task) => ("at shutdown task ", Some(task.as_str())),
            KernelState::Panic => ("already in panic", None),
        }
    }

    /// Marks the kernel as panicked and returns the phase that it was in.
    pub fn enter_panic(&mut self) -> (r: KernelState)
        ensures
            r == *old(self),
            *final(self) == KernelState::Panic,
    {
        let was = *self;
        *self = KernelState::Panic;
        was
    }
}

} // verus!
