//! The faults that an operation reports to its caller.
use vstd::prelude::*;

verus! {

/// What went wrong in one operation.
#[derive(Clone, Copy, Debug, PartialEq, Eq, Structural)]
pub enum SnmpError {
    /// The request could not be sent (or the transport could not be set up).
    SendError,
    /// No reply came within the timeout, after every attempt.
    ReceiveError,
    /// The reply is not well-formed BER for an SNMP message.
    ParseError,
    /// The reply is well-formed but is not the PDU kind that was expected.
    ProtocolError,
}

} // verus!
