use cpu_miner_sv2::miner::{
    extended_job_merkle_root, hash_meets_target, job_starts_mining, throttle_sleep_ms,
    zero_extranonce, MiningJob, MiningSession, MiningStep, SharePosition,
};
use stratum_apps::stratum_core::bitcoin::blockdata::block::{Header, Version};
use stratum_apps::stratum_core::bitcoin::{BlockHash, CompactTarget, Target, TxMerkleNode};
use stratum_apps::stratum_core::channels_sv2::merkle_root::merkle_root_from_path;

const MIN_NTIME: u32 = 1745596970;
const NBITS: u32 = 453040064;

fn job(target: [u8; 32]) -> MiningJob {
    MiningJob {
        channel_id: 2,
        job_id: 10,
        version: 536870912,
        prev_hash: [0; 32],
        merkle_root: [0; 32],
        nbits: NBITS,
        min_ntime: MIN_NTIME,
        target,
    }
}

fn reference_hash(job: &MiningJob, ntime: u32, nonce: u32) -> [u8; 32] {
    let header = Header {
        version: Version::from_consensus(job.version as i32),
        prev_blockhash: <BlockHash as stratum_apps::stratum_core::bitcoin::hashes::Hash>::from_byte_array(job.prev_hash),
        merkle_root: <TxMerkleNode as stratum_apps::stratum_core::bitcoin::hashes::Hash>::from_byte_array(job.merkle_root),
        time: ntime,
        bits: CompactTarget::from_consensus(job.nbits),
        nonce,
    };
    <BlockHash as stratum_apps::stratum_core::bitcoin::hashes::Hash>::to_byte_array(header.block_hash())
}

#[test]
fn compares_hashes_as_little_endian_numbers() {
    let mut small = [0u8; 32];
    small[0] = 0xff; // low byte
    let mut large = [0u8; 32];
    large[31] = 0x01; // high byte
    assert!(hash_meets_target(&small, &large));
    assert!(!hash_meets_target(&large, &small));
    assert!(hash_meets_target(&large, &large));
    assert!(hash_meets_target(&[0; 32], &[0; 32]));
    assert!(!hash_meets_target(&[0xff; 32], &[0xfe; 32]));
    for (a, b) in [(small, large), (large, small), ([0xff; 32], [0xfe; 32])] {
        assert_eq!(
            hash_meets_target(&a, &b),
            Target::from_le_bytes(a) <= Target::from_le_bytes(b)
        );
    }
}

#[test]
fn every_hash_meets_the_largest_target() {
    let mut session = MiningSession::new(job([0xff; 32]), false);
    assert_eq!(
        session.step(0),
        MiningStep::Share(SharePosition { nonce: 0, ntime: MIN_NTIME })
    );
    assert_eq!(
        session.step(0),
        MiningStep::Share(SharePosition { nonce: 1, ntime: MIN_NTIME })
    );
    // two seconds later the timestamp moves with the clock and the nonces restart
    assert_eq!(
        session.step(2),
        MiningStep::Share(SharePosition { nonce: 0, ntime: MIN_NTIME + 2 })
    );
    // a clock read that lags behind does not move the timestamp back
    assert_eq!(
        session.step(1),
        MiningStep::Share(SharePosition { nonce: 1, ntime: MIN_NTIME + 2 })
    );
}

#[test]
fn no_hash_meets_a_zero_target() {
    let mut session = MiningSession::new(job([0; 32]), false);
    for _ in 0..50 {
        assert_eq!(session.step(0), MiningStep::NoShare);
    }
}

#[test]
fn shares_are_exactly_the_hashes_at_or_below_the_target() {
    // about one header in sixteen meets this target
    let mut target = [0xff_u8; 32];
    target[31] = 0x0f;
    let job = job(target);
    let mut session = MiningSession::new(job, false);
    let mut shares = 0;
    for nonce in 0..400u32 {
        let expected = Target::from_le_bytes(reference_hash(session.job(), MIN_NTIME, nonce))
            <= Target::from_le_bytes(target);
        let step = session.step(0);
        if expected {
            shares += 1;
            assert_eq!(step, MiningStep::Share(SharePosition { nonce, ntime: MIN_NTIME }));
        } else {
            assert_eq!(step, MiningStep::NoShare);
        }
    }
    assert!(shares > 0 && shares < 400);
}

#[test]
fn single_submit_stops_after_the_first_share() {
    let mut session = MiningSession::new(job([0xff; 32]), true);
    assert!(matches!(session.step(0), MiningStep::Share(_)));
    assert!(session.on_share_submitted());
    assert_eq!(session.step(0), MiningStep::Stop);
    assert_eq!(session.step(5), MiningStep::Stop);

    let mut session = MiningSession::new(job([0xff; 32]), false);
    assert!(matches!(session.step(0), MiningStep::Share(_)));
    assert!(!session.on_share_submitted());
    assert!(matches!(session.step(0), MiningStep::Share(_)));
}

#[test]
fn stops_when_the_timestamp_would_overflow() {
    let mut job = job([0xff; 32]);
    job.min_ntime = u32::MAX - 1;
    let mut session = MiningSession::new(job, false);
    assert_eq!(
        session.step(1),
        MiningStep::Share(SharePosition { nonce: 0, ntime: u32::MAX })
    );
    assert_eq!(session.step(2), MiningStep::Stop);
    assert_eq!(session.step(0), MiningStep::Stop);
}

#[test]
fn ntime_never_runs_ahead_of_the_clock() {
    let mut session = MiningSession::new(job([0xff; 32]), false);
    let mut last: Option<SharePosition> = None;
    for elapsed in [0u64, 0, 0, 1, 1, 3, 3, 3, 4] {
        match session.step(elapsed) {
            MiningStep::Share(p) => {
                assert!(p.ntime >= MIN_NTIME && p.ntime as u64 <= MIN_NTIME as u64 + elapsed);
                if let Some(l) = last {
                    assert!((l.ntime, l.nonce) < (p.ntime, p.nonce));
                }
                last = Some(p);
            }
            other => panic!("unexpected step {other:?}"),
        }
    }
    assert_eq!(last, Some(SharePosition { nonce: 0, ntime: MIN_NTIME + 4 }));
}

#[test]
fn throttles_to_the_configured_cpu_share() {
    assert_eq!(throttle_sleep_ms(100, 1_000), None);
    assert_eq!(throttle_sleep_ms(30, 29), None);
    assert_eq!(throttle_sleep_ms(30, 30), Some(70));
    assert_eq!(throttle_sleep_ms(1, 5), Some(99));
    assert_eq!(throttle_sleep_ms(0, 0), Some(100));
}

#[test]
fn only_active_jobs_start_mining() {
    assert!(job_starts_mining(Some(MIN_NTIME)));
    assert!(!job_starts_mining(None));
}

/// Coinbase fixture whose transaction parses once a 32-byte extranonce is inserted.
fn coinbase() -> (Vec<u8>, Vec<u8>) {
    let prefix = vec![
        2, 0, 0, 0, 1, 0, 0, 0, 0, 0, 0, 0, 0, 0, 0, 0, 0, 0, 0, 0, 0, 0, 0, 0, 0, 0, 0, 0, 0, 0,
        0, 0, 0, 0, 0, 0, 0, 255, 255, 255, 255, 34, 82, 0,
    ];
    let suffix = vec![
        255, 255, 255, 255, 2, 0, 242, 5, 42, 1, 0, 0, 0, 22, 0, 20, 235, 225, 183, 220, 194, 147,
        204, 170, 14, 231, 67, 168, 111, 137, 223, 130, 88, 194, 8, 252, 0, 0, 0, 0, 0, 0, 0, 0,
        38, 106, 36, 170, 33, 169, 237, 226, 246, 28, 63, 113, 209, 222, 253, 63, 169, 153, 223,
        163, 105, 83, 117, 92, 105, 6, 137, 121, 153, 98, 180, 139, 235, 216, 54, 151, 78, 140,
        249, 0, 0, 0, 0,
    ];
    (prefix, suffix)
}

#[test]
fn extended_merkle_root_completes_the_coinbase_with_zero_extranonce() {
    let (prefix, suffix) = coinbase();
    let extranonce_prefix = vec![7u8; 28];
    let path = vec![[3u8; 32], [9u8; 32]];
    let root = extended_job_merkle_root(&prefix, &suffix, &extranonce_prefix, 4, &path);
    let mut full = extranonce_prefix.clone();
    full.extend_from_slice(&[0, 0, 0, 0]);
    let expected = merkle_root_from_path(&prefix, &suffix, &full, &path);
    assert!(expected.is_some());
    assert_eq!(root, expected);
    // a different extranonce prefix gives a different root
    let other = extended_job_merkle_root(&prefix, &suffix, &[8u8; 28], 4, &path);
    assert!(other.is_some());
    assert_ne!(other, root);
}

#[test]
fn extended_merkle_root_is_none_for_a_coinbase_that_does_not_parse() {
    let (prefix, suffix) = coinbase();
    // the coinbase only parses with a 32-byte extranonce
    assert_eq!(extended_job_merkle_root(&prefix, &suffix, &[0u8; 8], 0, &vec![]), None);
    assert_eq!(extended_job_merkle_root(&[0u8; 8], &[0u8; 8], &[], 0, &vec![]), None);
}

#[test]
fn zero_extranonce_has_the_requested_size() {
    assert_eq!(zero_extranonce(0), Vec::<u8>::new());
    assert_eq!(zero_extranonce(4), vec![0, 0, 0, 0]);
}
