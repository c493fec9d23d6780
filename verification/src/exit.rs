use vstd::prelude::*;

verus! {

/// Frame-local failure conditions: fatal to the current call frame only.
#[derive(Clone, Copy, Debug, PartialEq, Eq, Structural)]
pub enum ExitError {
    /// Gas-limit exhaustion, or an overflow inside a cost computation.
    OutOfGas,
    /// The caller's balance cannot cover the value being transferred.
    OutOfFund,
    /// The call stack has reached its depth limit.
    CallTooDeep,
    /// A precompiled contract reported failure; a call failure for the
    /// frame, never fatal.
    PrecompileFailure,
    /// The interpreter reported a jump to an invalid destination.
    InvalidJump,
    /// The interpreter reported an invalid opcode.
    InvalidOpcode,
    /// The interpreter reported an operand-stack underflow.
    StackUnderflow,
    /// The interpreter reported an operand-stack overflow.
    StackOverflow,
    /// The interpreter reported a state mutation inside a static call.
    StaticViolation,
}

/// Ways a call frame can finish without failing.
#[derive(Clone, Copy, Debug, PartialEq, Eq, Structural)]
pub enum ExitSucceed {
    Stopped,
    Returned,
}

/// The closed set of terminal outcomes of one call frame.
#[derive(Clone, Copy, Debug, PartialEq, Eq, Structural)]
pub enum ExitReason {
    /// Normal stop or return; accumulated state is kept.
    Succeed(ExitSucceed),
    /// Explicit revert: the frame's effects are undone, the caller goes on.
    Revert,
    /// A frame-local error: the frame's effects are undone.
    Error(ExitError),
    /// An internal invariant failure aborting the whole transaction.
    Fatal,
}

} // verus!
