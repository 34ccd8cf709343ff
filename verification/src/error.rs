//! Errors raised by the miner's own rules: a refused configuration, and mining servers that
//! break the protocol.
use vstd::prelude::*;

verus! {

/// Everything the miner's decisions can refuse. Failures of the transport (sockets, Noise,
/// frame parsing) belong to the program that drives the connection.
#[derive(Debug)]
pub enum Sv2CpuMinerError {
    /// Config values that deserialize but fail validation.
    InvalidConfig(&'static str),
    /// Sending to the mining server failed: the connection is closed.
    ChannelErrorSender,
    /// Received a message type this client never accepts (extension type, message type).
    UnexpectedMessage(u16, u8),
    /// The mining server answered SetupConnection with SetupConnection.Error.
    SetupConnectionFailed,
    /// The mining server accepted SetupConnection with parameters this client cannot honour.
    SetupConnectionMismatch(&'static str),
    /// A message that a connection declaring REQUIRES_STANDARD_JOBS must never receive.
    StandardJobsOnly(&'static str),
    /// A channel's shared state was poisoned by a panicking task.
    PoisonLock,
}

} // verus!
