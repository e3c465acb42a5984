use vstd::prelude::*;

verus! {

/// Errors surfaced by the daemon core. Every command replies with one of
/// these on failure; no error stops the command loop.
#[derive(Clone, Copy, Debug, PartialEq, Eq, Structural)]
pub enum BpfdError {
    /// The interface name does not resolve to an index.
    InvalidInterface,
    /// The program kind does not match the attach specification.
    InvalidProgramType,
    /// The chain for this hook already holds the maximum number of programs.
    TooManyPrograms,
    /// The image pull or the bytecode read failed.
    BytecodeUnavailable,
    /// The kernel verifier or loader rejected the bytecode.
    LoadFailed,
    /// The kernel refused to attach the dispatcher at the hook.
    AttachFailed,
    /// The operation presupposes a loaded entity that is absent.
    NotLoaded,
    /// A filesystem pin could not be created or reopened.
    PinError,
    /// A persistent store operation failed.
    DatabaseError,
    /// The caller is neither the program's owner nor an administrator.
    Unauthorized,
}

} // verus!
