//! What can go wrong with a buffer.

use vstd::prelude::*;

verus! {

/// Why a buffer could not be made or changed over. Both come from the
/// operating system and are final: nothing is tried a second time. Each
/// holds the error with which the system refused.
#[derive(Debug)]
pub enum BufferError {
    /// The system granted no new memory map.
    AllocationFailure(std::io::Error),
    /// The system refused to change the protection of a memory map.
    ProtectionTransitionFailure(std::io::Error),
}

impl BufferError {
    /// The error with which the system refused.
    pub open spec fn cause(self) -> std::io::Error {
        match self {
            BufferError::AllocationFailure(cause) => cause,
            BufferError::ProtectionTransitionFailure(cause) => cause,
        }
    }

    /// Hands out the error with which the system refused.
    pub fn into_io_error(self) -> (cause: std::io::Error)
        ensures
            cause == self.cause(),
    {
        match self {
            BufferError::AllocationFailure(cause) => cause,
            BufferError::ProtectionTransitionFailure(cause) => cause,
        }
    }
}

} // verus!
