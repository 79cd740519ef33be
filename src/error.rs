//! What can go wrong in a debug session, and how engine failures map onto it.
use vstd::prelude::*;

verus! {

/// Errors the adapter reports to the protocol layer.
#[derive(Clone, Copy, Debug, PartialEq, Eq, Structural)]
pub enum AdapterError {
    /// The protocol asked for something this target does not do (resume with a signal).
    UnsupportedOperation,
    /// A register buffer does not match the register layout; the session cannot go on.
    ProtocolDesync,
    /// Unmapped memory was read or written; the session goes on.
    RecoverableMemoryFault,
    /// The engine failed in any other way; the session cannot go on.
    FatalEngineFailure,
    /// The protocol named a register the layout does not have.
    UnknownRegister,
}

/// What the emulation engine reported when a memory or register access failed.
#[derive(Clone, Copy, Debug, PartialEq, Eq, Structural)]
pub enum EngineError {
    ReadUnmapped,
    WriteUnmapped,
    Other,
}

/// Direction of a memory transfer.
#[derive(Clone, Copy, Debug, PartialEq, Eq, Structural)]
pub enum Transfer {
    Read,
    Write,
}

pub open spec fn is_fatal_spec(e: AdapterError) -> bool {
    e == AdapterError::ProtocolDesync || e == AdapterError::FatalEngineFailure
}

/// Protocol error number for a recoverable memory fault.
pub const MEMORY_FAULT_ERRNO: u8 = 1;

impl AdapterError {
    /// Whether the error ends the session.
    pub fn is_fatal(&self) -> (r: bool)
        ensures
            r == is_fatal_spec(*self),
    {
        match self {
            AdapterError::ProtocolDesync | AdapterError::FatalEngineFailure => true,
            _ => false,
        }
    }

    /// The error number the protocol shows for a recoverable error, if it has one.
    pub fn errno(&self) -> (r: Option<u8>)
        ensures
            r == (if *self == AdapterError::RecoverableMemoryFault {
                Some(MEMORY_FAULT_ERRNO)
            } else {
                None::<u8>
            }),
    {
        match self {
            AdapterError::RecoverableMemoryFault => Some(MEMORY_FAULT_ERRNO),
            _ => None,
        }
    }
}

pub open spec fn memory_error_spec(t: Transfer, e: EngineError) -> AdapterError {
    if (t == Transfer::Read && e == EngineError::ReadUnmapped) || (t == Transfer::Write && e
        == EngineError::WriteUnmapped) {
        AdapterError::RecoverableMemoryFault
    } else {
        AdapterError::FatalEngineFailure
    }
}

/// Maps a failed memory transfer: touching unmapped memory in the direction of
/// the transfer is recoverable, anything else is fatal.
pub fn memory_error(t: Transfer, e: EngineError) -> (r: AdapterError)
    ensures
        r == memory_error_spec(t, e),
{
    match (t, e) {
        (Transfer::Read, EngineError::ReadUnmapped) => AdapterError::RecoverableMemoryFault,
        (Transfer::Write, EngineError::WriteUnmapped) => AdapterError::RecoverableMemoryFault,
        _ => AdapterError::FatalEngineFailure,
    }
}

pub open spec fn memory_result_spec(t: Transfer, engine: Result<(), EngineError>) -> Result<(), AdapterError> {
    match engine {
        Ok(()) => Ok(()),
        Err(e) => Err(memory_error_spec(t, e)),
    }
}

/// Outcome of a memory transfer, given what the engine returned.
pub fn memory_result(t: Transfer, engine: Result<(), EngineError>) -> (r: Result<(), AdapterError>)
    ensures
        r == memory_result_spec(t, engine),
{
    match engine {
        Ok(()) => Ok(()),
        Err(e) => Err(memory_error(t, e)),
    }
}

/// A read of unmapped memory is a recoverable fault, not a fatal one. The
/// mapping keeps no state, so a later read succeeds whenever the engine's
/// read does.
pub proof fn lemma_unmapped_read_recoverable()
    ensures
        memory_result_spec(Transfer::Read, Err(EngineError::ReadUnmapped)) == Err::<(), AdapterError>(
            AdapterError::RecoverableMemoryFault,
        ),
        !is_fatal_spec(AdapterError::RecoverableMemoryFault),
        memory_result_spec(Transfer::Read, Ok(())) == Ok::<(), AdapterError>(()),
{
}

/// A register buffer that does not match the layout ends the session.
pub proof fn lemma_desync_is_fatal()
    ensures
        is_fatal_spec(AdapterError::ProtocolDesync),
{
}

} // verus!
