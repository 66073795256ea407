//! The engine's error taxonomy.
//!
//! Every variant is a programming-contract violation by the instrumented
//! code, not a recoverable data error: the engine fails fast and the
//! caller aborts the current step.

use vstd::prelude::*;

verus! {

/// The operation attempted on the stage state machine.
#[derive(Debug, Clone, Copy, PartialEq, Eq)]
pub enum StageAction {
    Send,
    Receive,
    EndStep,
}

/// Which stage the machine was actually in.
#[derive(Debug, Clone, Copy, PartialEq, Eq)]
pub enum StageKind {
    Running,
    AwaitingReply,
}

/// A contract violation reported by the engine.
#[derive(Debug, PartialEq, Eq)]
pub enum TlaError {
    /// A merge was attempted between assignments with overlapping names;
    /// `keys` holds the offending names.
    DuplicateVariable { keys: Vec<String> },
    /// A return was recorded with an empty call stack.
    StackUnderflow,
    /// A send, receive or step end arrived in the wrong stage.
    StageViolation { attempted: StageAction, actual: StageKind },
    /// An operation arrived before a step began or after it ended.
    UninitializedContext,
}

} // verus!
