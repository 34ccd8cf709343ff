use cpu_miner_sv2::channel_manager::{
    on_set_custom_mining_job_error, on_set_custom_mining_job_success, ChannelKind,
    ChannelManager, ChannelRef, OpenChannelRequest,
};
use cpu_miner_sv2::error::Sv2CpuMinerError;
use stratum_apps::stratum_core::{common_messages_sv2, mining_sv2};

fn manager(requires_standard_jobs: bool) -> ChannelManager {
    ChannelManager::new("user".to_string(), 0, 3, false, 100, requires_standard_jobs)
}

fn standard(channel_id: u32) -> ChannelRef {
    ChannelRef { channel_id, kind: ChannelKind::Standard }
}

fn extended(channel_id: u32) -> ChannelRef {
    ChannelRef { channel_id, kind: ChannelKind::Extended }
}

fn sorted<T: Ord>(mut v: Vec<T>) -> Vec<T> {
    v.sort();
    v
}

fn ids(refs: Vec<ChannelRef>) -> Vec<u32> {
    sorted(refs.into_iter().map(|r| r.channel_id).collect())
}

/// Opens standard channels 2 and 3 in group 1 and channel 5 in group 4, each with a 32-byte
/// extranonce prefix.
fn manager_with_two_groups() -> ChannelManager {
    let mut m = manager(false);
    for (channel_id, group_channel_id) in [(2, 1), (3, 1), (5, 4)] {
        assert!(m.on_standard_channel_opened(channel_id, group_channel_id, 32));
    }
    m
}

fn group_job_targets(m: &ChannelManager, channel_id: u32) -> Vec<u32> {
    ids(m.route_new_extended_mining_job(channel_id).unwrap())
}

#[test]
fn group_job_reaches_only_the_members_of_that_group() {
    let m = manager_with_two_groups();
    assert_eq!(group_job_targets(&m, 1), vec![2, 3]);
    assert_eq!(group_job_targets(&m, 4), vec![5]);
    let routed = m.route_new_extended_mining_job(1).unwrap();
    assert!(routed.iter().all(|r| r.kind == ChannelKind::Standard));
}

#[test]
fn extended_job_sent_to_a_standard_channel_is_ignored() {
    let m = manager_with_two_groups();
    assert!(group_job_targets(&m, 2).is_empty());
}

#[test]
fn set_group_channel_redefines_membership() {
    let mut m = manager_with_two_groups();
    // group 4 becomes {3, 5}; channel 3 leaves group 1
    assert!(m.set_group_channel(4, &vec![3, 5]).is_ok());
    assert_eq!(group_job_targets(&m, 1), vec![2]);
    assert_eq!(group_job_targets(&m, 4), vec![3, 5]);
}

#[test]
fn set_group_channel_reusing_a_channel_id_is_ignored() {
    let mut m = manager_with_two_groups();
    assert!(m.set_group_channel(2, &vec![3]).is_ok());
    assert_eq!(group_job_targets(&m, 1), vec![2, 3]);
    assert!(!m.group_ids().contains(&2));
}

#[test]
fn close_channel_addressed_to_a_group_closes_its_members() {
    let mut m = manager_with_two_groups();
    let closed = m.close_channel(1);
    assert_eq!(ids(closed), vec![2, 3]);
    assert_eq!(m.channel_ids(ChannelKind::Standard), vec![5]);
    assert_eq!(m.group_ids(), vec![4]);
}

#[test]
fn extended_job_on_a_standard_jobs_connection_is_fatal() {
    let mut m = manager(true);
    assert!(m.on_standard_channel_opened(2, 1, 32));
    assert!(matches!(
        m.route_new_extended_mining_job(1),
        Err(Sv2CpuMinerError::StandardJobsOnly("NewExtendedMiningJob"))
    ));
}

#[test]
fn test_mining_client_refuses_set_group_channel() {
    let mut m = manager(true);
    assert!(m.on_standard_channel_opened(2, 1, 32));
    assert!(matches!(
        m.set_group_channel(1, &vec![2]),
        Err(Sv2CpuMinerError::StandardJobsOnly("SetGroupChannel"))
    ));
    assert_eq!(group_job_targets(&manager_with_two_groups(), 1), vec![2, 3]);
}

#[test]
fn opens_standard_channels_before_extended_ones() {
    let m = ChannelManager::new("user".to_string(), 2, 3, false, 100, false);
    let requests = m.open_channels();
    let expected: Vec<OpenChannelRequest> = (0..5)
        .map(|i| OpenChannelRequest {
            request_id: i,
            kind: if i < 3 { ChannelKind::Standard } else { ChannelKind::Extended },
        })
        .collect();
    assert_eq!(requests, expected);
    assert_eq!(m.user_identity(), "user");
    assert_eq!(m.cpu_usage_percent(), 100);
    assert!(!m.single_submit());
    assert!(!m.requires_standard_jobs());
}

#[test]
fn opening_refuses_colliding_ids() {
    let mut m = manager_with_two_groups();
    // a group id that is an open channel
    assert!(!m.on_standard_channel_opened(6, 2, 32));
    // a channel id equal to its group id
    assert!(!m.on_standard_channel_opened(7, 7, 32));
    // a channel id that names a group
    assert!(!m.on_extended_channel_opened(1, 8, 28, 4));
    assert_eq!(sorted(m.channel_ids(ChannelKind::Standard)), vec![2, 3, 5]);
    assert!(m.channel_ids(ChannelKind::Extended).is_empty());
    assert_eq!(sorted(m.group_ids()), vec![1, 4]);
}

#[test]
fn opening_refuses_a_mismatched_extranonce_size() {
    let mut m = manager_with_two_groups();
    // group 1 holds 32-byte extranonces: 28 + 4 fits, 28 + 8 does not
    assert!(!m.on_extended_channel_opened(9, 1, 28, 8));
    assert!(m.on_extended_channel_opened(10, 1, 28, 4));
    assert_eq!(m.full_extranonce_size(10), Some(32));
    assert_eq!(group_job_targets(&m, 1), vec![2, 3, 10]);
    let routed = sorted(
        m.route_new_extended_mining_job(1)
            .unwrap()
            .into_iter()
            .map(|r| (r.channel_id, r.kind == ChannelKind::Extended))
            .collect(),
    );
    assert_eq!(routed, vec![(2, false), (3, false), (10, true)]);
}

#[test]
fn extended_job_addressed_to_an_extended_channel_reaches_it() {
    let mut m = manager(false);
    assert!(m.on_extended_channel_opened(7, 1, 8, 8));
    assert_eq!(m.route_new_extended_mining_job(7).unwrap(), vec![extended(7)]);
    assert!(m.route_new_extended_mining_job(8).unwrap().is_empty());
}

#[test]
fn prev_hash_and_target_fan_out_to_the_addressed_channels() {
    let m = manager_with_two_groups();
    assert_eq!(ids(m.route_to_addressed(1)), vec![2, 3]);
    assert_eq!(m.route_to_addressed(5), vec![standard(5)]);
    assert!(m.route_to_addressed(42).is_empty());
    assert!(m.route_new_mining_job(2));
    assert!(!m.route_new_mining_job(1));
}

#[test]
fn set_group_channel_with_unknown_or_mismatched_channels_is_ignored() {
    let mut m = manager_with_two_groups();
    assert!(m.on_extended_channel_opened(9, 8, 8, 8));
    // channel 42 is not open
    assert!(m.set_group_channel(4, &vec![5, 42]).is_ok());
    assert_eq!(group_job_targets(&m, 4), vec![5]);
    // channel 9 has a 16-byte extranonce, channel 5 a 32-byte one
    assert!(m.set_group_channel(4, &vec![5, 9]).is_ok());
    assert_eq!(group_job_targets(&m, 4), vec![5]);
    assert_eq!(group_job_targets(&m, 8), vec![9]);
}

#[test]
fn set_group_channel_with_no_channels_removes_the_group() {
    let mut m = manager_with_two_groups();
    assert!(m.set_group_channel(4, &vec![]).is_ok());
    assert_eq!(sorted(m.group_ids()), vec![1]);
    // channel 5 stays open, without a group
    assert_eq!(m.route_to_addressed(5), vec![standard(5)]);
}

#[test]
fn set_extranonce_prefix_reaches_the_channel_not_its_group() {
    let mut m = manager_with_two_groups();
    assert_eq!(m.route_set_extranonce_prefix(2), vec![standard(2)]);
    assert!(m.route_set_extranonce_prefix(1).is_empty());
    m.record_full_extranonce_size(standard(2), 16);
    assert_eq!(m.full_extranonce_size(2), Some(16));
    // a regroup now sees the sizes differ
    assert!(m.set_group_channel(1, &vec![2, 3]).is_ok());
    assert_eq!(group_job_targets(&m, 1), vec![2, 3]);
    assert!(m.set_group_channel(6, &vec![2, 3]).is_ok());
    assert!(!m.group_ids().contains(&6));
}

#[test]
fn closing_a_single_channel_keeps_its_group_members() {
    let mut m = manager_with_two_groups();
    assert_eq!(m.close_channel(3), vec![standard(3)]);
    assert_eq!(group_job_targets(&m, 1), vec![2]);
    assert!(m.close_channel(3).is_empty());
    assert_eq!(m.close_channel(5), vec![standard(5)]);
    assert_eq!(m.group_ids(), vec![1]);
}

#[test]
fn custom_job_replies_are_refused() {
    assert!(matches!(
        on_set_custom_mining_job_success(),
        Err(Sv2CpuMinerError::UnexpectedMessage(0, 0x23))
    ));
    assert!(matches!(
        on_set_custom_mining_job_error(),
        Err(Sv2CpuMinerError::UnexpectedMessage(0, 0x24))
    ));
}

#[test]
fn message_types_match_the_protocol_crates() {
    assert_eq!(
        cpu_miner_sv2::client::MESSAGE_TYPE_SETUP_CONNECTION_SUCCESS,
        common_messages_sv2::MESSAGE_TYPE_SETUP_CONNECTION_SUCCESS
    );
    assert_eq!(
        cpu_miner_sv2::client::MESSAGE_TYPE_SETUP_CONNECTION_ERROR,
        common_messages_sv2::MESSAGE_TYPE_SETUP_CONNECTION_ERROR
    );
    assert_eq!(
        cpu_miner_sv2::client::MESSAGE_TYPE_CHANNEL_ENDPOINT_CHANGED,
        common_messages_sv2::MESSAGE_TYPE_CHANNEL_ENDPOINT_CHANGED
    );
    assert_eq!(
        cpu_miner_sv2::client::MESSAGE_TYPE_RECONNECT,
        common_messages_sv2::MESSAGE_TYPE_RECONNECT
    );
    assert_eq!(
        cpu_miner_sv2::channel_manager::MESSAGE_TYPE_SET_CUSTOM_MINING_JOB_SUCCESS,
        mining_sv2::MESSAGE_TYPE_SET_CUSTOM_MINING_JOB_SUCCESS
    );
    assert_eq!(
        cpu_miner_sv2::channel_manager::MESSAGE_TYPE_SET_CUSTOM_MINING_JOB_ERROR,
        mining_sv2::MESSAGE_TYPE_SET_CUSTOM_MINING_JOB_ERROR
    );
    assert_eq!(
        cpu_miner_sv2::client::SUPPORTED_PROTOCOL_VERSION,
        stratum_apps::utils::types::SUPPORTED_PROTOCOL_VERSION
    );
}
