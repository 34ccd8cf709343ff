//! The connection's handshake: what this client offers in SetupConnection and what it accepts
//! in reply, and the common messages a mining server may send afterwards.
use vstd::prelude::*;
use crate::error::Sv2CpuMinerError;

verus! {

/// The only protocol version this client speaks.
pub const SUPPORTED_PROTOCOL_VERSION: u16 = 2;

/// Common message types (extension type 0).
pub const MESSAGE_TYPE_SETUP_CONNECTION_SUCCESS: u8 = 0x01;
pub const MESSAGE_TYPE_SETUP_CONNECTION_ERROR: u8 = 0x02;
pub const MESSAGE_TYPE_CHANNEL_ENDPOINT_CHANGED: u8 = 0x03;
pub const MESSAGE_TYPE_RECONNECT: u8 = 0x04;

/// SetupConnection flag of a mining client: it cannot process extended jobs.
pub const REQUIRES_STANDARD_JOBS: u32 = 0b001;

/// SetupConnection.Success flags of a mining server.
pub const REQUIRES_FIXED_VERSION: u32 = 0b01;
pub const REQUIRES_EXTENDED_CHANNELS: u32 = 0b10;

/// The flags of this client's SetupConnection: REQUIRES_STANDARD_JOBS when the user asked for
/// it, never REQUIRES_WORK_SELECTION nor REQUIRES_VERSION_ROLLING.
pub fn setup_connection_flags(requires_standard_jobs: bool) -> (flags: u32)
    ensures
        flags == (if requires_standard_jobs { REQUIRES_STANDARD_JOBS } else { 0u32 }),
{
    if requires_standard_jobs {
        REQUIRES_STANDARD_JOBS
    } else {
        0
    }
}

/// The first reply on a connection must be SetupConnection.Success or SetupConnection.Error;
/// anything else is a protocol violation, reported with the offending types.
pub fn check_setup_connection_reply_header(ext_type: u16, msg_type: u8) -> (r: Result<
    (),
    Sv2CpuMinerError,
>)
    ensures
        ext_type == 0 && (msg_type == MESSAGE_TYPE_SETUP_CONNECTION_SUCCESS || msg_type
            == MESSAGE_TYPE_SETUP_CONNECTION_ERROR) ==> r is Ok,
        !(ext_type == 0 && (msg_type == MESSAGE_TYPE_SETUP_CONNECTION_SUCCESS || msg_type
            == MESSAGE_TYPE_SETUP_CONNECTION_ERROR)) ==> r == Err::<(), Sv2CpuMinerError>(
            Sv2CpuMinerError::UnexpectedMessage(ext_type, msg_type),
        ),
{
    if ext_type != 0 || !(msg_type == MESSAGE_TYPE_SETUP_CONNECTION_SUCCESS || msg_type
        == MESSAGE_TYPE_SETUP_CONNECTION_ERROR) {
        return Err(Sv2CpuMinerError::UnexpectedMessage(ext_type, msg_type));
    }
    Ok(())
}

/// Why a SetupConnection.Success with these parameters cannot be honoured, if it cannot: a
/// version this client did not offer, a flag the Mining Protocol does not define for servers,
/// or REQUIRES_EXTENDED_CHANNELS while standard channels are configured.
pub open spec fn setup_success_mismatch(used_version: u16, flags: u32, n_standard_channels: u8) -> Option<
    &'static str,
> {
    if used_version != SUPPORTED_PROTOCOL_VERSION {
        Some("used_version is not the version offered")
    } else if flags >= 4 {
        Some("flags hold bits the Mining Protocol does not define")
    } else if flags >= 2 && n_standard_channels > 0 {
        Some("REQUIRES_EXTENDED_CHANNELS refuses the configured standard channels")
    } else {
        None
    }
}

/// Decides whether the connection can be used after SetupConnection.Success.
pub fn on_setup_connection_success(used_version: u16, flags: u32, n_standard_channels: u8) -> (r:
    Result<(), Sv2CpuMinerError>)
    ensures
        match setup_success_mismatch(used_version, flags, n_standard_channels) {
            None => r is Ok,
            Some(msg) => r == Err::<(), Sv2CpuMinerError>(
                Sv2CpuMinerError::SetupConnectionMismatch(msg),
            ),
        },
{
    if used_version != SUPPORTED_PROTOCOL_VERSION {
        return Err(Sv2CpuMinerError::SetupConnectionMismatch("used_version is not the version offered"));
    }
    let undefined = flags & !(REQUIRES_FIXED_VERSION | REQUIRES_EXTENDED_CHANNELS);
    assert(undefined != 0 <==> flags >= 4) by (bit_vector)
        requires
            undefined == flags & !(0b01u32 | 0b10u32),
    ;
    if undefined != 0 {
        return Err(Sv2CpuMinerError::SetupConnectionMismatch("flags hold bits the Mining Protocol does not define"));
    }
    let extended_only = flags & REQUIRES_EXTENDED_CHANNELS;
    assert(flags < 4 ==> (extended_only != 0 <==> flags >= 2)) by (bit_vector)
        requires
            extended_only == flags & 0b10u32,
    ;
    if extended_only != 0 && n_standard_channels > 0 {
        return Err(Sv2CpuMinerError::SetupConnectionMismatch("REQUIRES_EXTENDED_CHANNELS refuses the configured standard channels"));
    }
    Ok(())
}

/// SetupConnection.Error: the mining server refused the connection.
pub fn on_setup_connection_error() -> (r: Result<(), Sv2CpuMinerError>)
    ensures
        r == Err::<(), Sv2CpuMinerError>(Sv2CpuMinerError::SetupConnectionFailed),
{
    Err(Sv2CpuMinerError::SetupConnectionFailed)
}

/// ChannelEndpointChanged is never expected by this client.
pub fn on_channel_endpoint_changed() -> (r: Result<(), Sv2CpuMinerError>)
    ensures
        r == Err::<(), Sv2CpuMinerError>(
            Sv2CpuMinerError::UnexpectedMessage(0, MESSAGE_TYPE_CHANNEL_ENDPOINT_CHANGED),
        ),
{
    Err(Sv2CpuMinerError::UnexpectedMessage(0, MESSAGE_TYPE_CHANNEL_ENDPOINT_CHANGED))
}

/// Reconnect is never expected by this client.
pub fn on_reconnect() -> (r: Result<(), Sv2CpuMinerError>)
    ensures
        r == Err::<(), Sv2CpuMinerError>(
            Sv2CpuMinerError::UnexpectedMessage(0, MESSAGE_TYPE_RECONNECT),
        ),
{
    Err(Sv2CpuMinerError::UnexpectedMessage(0, MESSAGE_TYPE_RECONNECT))
}

} // verus!
