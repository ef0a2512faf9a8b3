//! States of supervised processes, execution states reported by
//! applications, and state-change errors.

use vstd::prelude::*;

verus! {

/// The life cycle of a supervised process.
#[derive(Debug, Clone, Copy, PartialEq, Eq, Structural)]
pub enum ProcessState {
    Idle,
    Starting,
    Running,
    Terminating,
    Terminated,
}

/// The execution state a process reports once started.
#[derive(Debug, Clone, Copy, PartialEq, Eq, Structural)]
pub enum ExeuctionClient {
    RUNNING,
}

/// The identifiers an application reports its execution state with.
#[derive(Debug, Clone, Copy, PartialEq, Eq, Structural)]
pub struct ExecutionClient {
    pub service_id: u16,
    pub method_id: u16,
    pub client_id: u16,
}

/// Why a state change was refused.
#[derive(Debug)]
pub enum ChangeStateError {
    UnknownFunctionGroup(String),
}

} // verus!
