//! The fatal conditions that stop the machine.

use vstd::prelude::*;

verus! {

/// Every operation of the core that can fail reports one of these
/// conditions. They are all fatal: the driving loop stops at the first
/// failure and surfaces it to its caller.
#[derive(Clone, Copy, Debug, PartialEq, Eq, Structural)]
pub enum VmError {
    /// An opcode, function code or branch code with no defined meaning.
    IllegalInstruction,
    /// An attempted write to register 0 outside the syscall exception.
    ZeroRegisterWrite,
    /// No mapped region covers the requested address.
    UnmappedAddress,
    /// The address resolves into a region but exceeds the backing
    /// device's extent.
    OutOfBounds,
    /// A device rejected an operation it does not implement.
    UnsupportedOperation,
    /// DIV or DIVU with a zero divisor.
    DivideByZero,
    /// A decoded instruction that the engine declines to execute
    /// (coprocessor and unaligned operations).
    NotImplemented,
}

} // verus!
