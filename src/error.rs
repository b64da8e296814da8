use vstd::prelude::*;

verus! {

/// Failure of compiling or searching for a byte signature.
#[derive(Debug, Clone, Copy, PartialEq, Eq, Structural)]
pub enum AobScanError {
    PatternNotFound,
    InvalidPattern,
}

/// Failure of a protected read.
#[derive(Debug, Clone, Copy, PartialEq, Eq, Structural)]
pub enum ReadMemoryError {
    NullPointer,
    InvalidAlignment,
    FailedToChangeProtection,
    FailedToRestoreProtection,
    InvalidAccess,
}

/// Failure of a protected write.
#[derive(Debug, Clone, Copy, PartialEq, Eq, Structural)]
pub enum WriteMemoryError {
    NullPointer,
    InvalidAlignment,
    InvalidAccess,
    FailedToChangeProtection,
    FailedToRestoreProtection,
}

} // verus!
