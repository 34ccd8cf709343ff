use cpu_miner_sv2::client::{
    check_setup_connection_reply_header, on_channel_endpoint_changed, on_reconnect,
    on_setup_connection_error, on_setup_connection_success, setup_connection_flags,
};
use cpu_miner_sv2::error::Sv2CpuMinerError;

#[test]
fn requests_standard_jobs_only_when_asked() {
    assert_eq!(setup_connection_flags(true), 0b001);
    assert_eq!(setup_connection_flags(false), 0);
}

#[test]
fn accepts_a_plain_success() {
    assert!(on_setup_connection_success(2, 0, 1).is_ok());
    // REQUIRES_FIXED_VERSION: this miner never rolls the version
    assert!(on_setup_connection_success(2, 0b01, 1).is_ok());
    // REQUIRES_EXTENDED_CHANNELS is fine when only extended channels are configured
    assert!(on_setup_connection_success(2, 0b10, 0).is_ok());
    assert!(on_setup_connection_success(2, 0b11, 0).is_ok());
}

#[test]
fn test_mining_client_rejects_undefined_flags() {
    assert!(matches!(
        on_setup_connection_success(2, 0b100, 1),
        Err(Sv2CpuMinerError::SetupConnectionMismatch(_))
    ));
}

#[test]
fn test_mining_client_rejects_required_extended_channels_with_standard_channels_configured() {
    assert!(matches!(
        on_setup_connection_success(2, 0b10, 1),
        Err(Sv2CpuMinerError::SetupConnectionMismatch(_))
    ));
}

#[test]
fn test_mining_client_rejects_a_version_that_was_not_offered() {
    assert!(matches!(
        on_setup_connection_success(3, 0, 1),
        Err(Sv2CpuMinerError::SetupConnectionMismatch(_))
    ));
}

#[test]
fn test_mining_client_rejects_a_first_reply_that_is_not_a_setup_connection_reply() {
    // OpenStandardMiningChannel.Success arriving in place of the SetupConnection reply
    assert!(matches!(
        check_setup_connection_reply_header(0, 0x11),
        Err(Sv2CpuMinerError::UnexpectedMessage(0, 0x11))
    ));
    assert!(matches!(
        check_setup_connection_reply_header(1, 0x01),
        Err(Sv2CpuMinerError::UnexpectedMessage(1, 0x01))
    ));
    assert!(check_setup_connection_reply_header(0, 0x01).is_ok());
    assert!(check_setup_connection_reply_header(0, 0x02).is_ok());
}

#[test]
fn test_mining_client_setup_connection_error() {
    assert!(matches!(
        on_setup_connection_error(),
        Err(Sv2CpuMinerError::SetupConnectionFailed)
    ));
}

#[test]
fn refuses_endpoint_changes_and_reconnects() {
    assert!(matches!(
        on_channel_endpoint_changed(),
        Err(Sv2CpuMinerError::UnexpectedMessage(0, 0x03))
    ));
    assert!(matches!(
        on_reconnect(),
        Err(Sv2CpuMinerError::UnexpectedMessage(0, 0x04))
    ));
}
