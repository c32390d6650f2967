//! Bookkeeping of the kernel's phase.

pub mod kernel_state;

pub use kernel_state::{KernelInitState, KernelRuntimeState, KernelShutdownState, KernelState};
