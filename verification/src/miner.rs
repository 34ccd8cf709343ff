//! The decisions of a miner task: how long to work and sleep, which header to hash next, and
//! whether a hash is a share.
use vstd::prelude::*;
use crate::config::CPU_THROTTLE_WINDOW_MS;
use stratum_apps::stratum_core::bitcoin::blockdata::block::{Header, Version};
use stratum_apps::stratum_core::bitcoin::{BlockHash, CompactTarget, TxMerkleNode};
use stratum_apps::stratum_core::channels_sv2::merkle_root::merkle_root_from_path;

verus! {

/// `256^n`.
pub open spec fn pow256(n: nat) -> nat
    decreases n,
{
    if n == 0 {
        1
    } else {
        256 * pow256((n - 1) as nat)
    }
}

/// The number a little-endian byte string encodes (a hash or a target).
pub open spec fn le_value(s: Seq<u8>) -> nat
    decreases s.len(),
{
    if s.len() == 0 {
        0
    } else {
        le_value(s.drop_last()) + s.last() as nat * pow256((s.len() - 1) as nat)
    }
}

proof fn lemma_pow256_pos(n: nat)
    ensures
        pow256(n) >= 1,
    decreases n,
{
    if n > 0 {
        lemma_pow256_pos((n - 1) as nat);
    }
}

proof fn lemma_le_value_bound(s: Seq<u8>)
    ensures
        le_value(s) < pow256(s.len()),
    decreases s.len(),
{
    if s.len() > 0 {
        let n = (s.len() - 1) as nat;
        lemma_le_value_bound(s.drop_last());
        lemma_pow256_pos(n);
        let p = pow256(n);
        let l = s.last() as nat;
        assert(l <= 255);
        assert(le_value(s.drop_last()) + l * p < 256 * p) by (nonlinear_arith)
            requires
                le_value(s.drop_last()) < p,
                l <= 255,
        ;
    }
}

/// Two byte strings of one length that agree above index `k` compare as their prefixes up to
/// and including `k` do.
proof fn lemma_le_value_top_equal(a: Seq<u8>, b: Seq<u8>, k: int)
    requires
        a.len() == b.len(),
        0 <= k < a.len(),
        a.subrange(k + 1, a.len() as int) == b.subrange(k + 1, b.len() as int),
    ensures
        le_value(a) - le_value(b) == le_value(a.subrange(0, k + 1)) - le_value(b.subrange(0, k + 1)),
    decreases a.len(),
{
    if k + 1 < a.len() {
        let n = (a.len() - 1) as nat;
        assert(a.last() == b.last()) by {
            assert(a.subrange(k + 1, a.len() as int)[a.len() - 1 - (k + 1)] == a.last());
            assert(b.subrange(k + 1, b.len() as int)[b.len() - 1 - (k + 1)] == b.last());
        }
        assert(a.drop_last().subrange(k + 1, n as int) =~= a.subrange(k + 1, a.len() as int).drop_last());
        assert(b.drop_last().subrange(k + 1, n as int) =~= b.subrange(k + 1, b.len() as int).drop_last());
        lemma_le_value_top_equal(a.drop_last(), b.drop_last(), k);
        assert(a.drop_last().subrange(0, k + 1) =~= a.subrange(0, k + 1));
        assert(b.drop_last().subrange(0, k + 1) =~= b.subrange(0, k + 1));
    } else {
        assert(a.subrange(0, k + 1) =~= a);
        assert(b.subrange(0, k + 1) =~= b);
    }
}

/// Comparing by the top byte: a smaller top byte means a smaller number.
proof fn lemma_le_value_top_byte(a: Seq<u8>, b: Seq<u8>)
    requires
        a.len() == b.len(),
        a.len() > 0,
        a.last() < b.last(),
    ensures
        le_value(a) < le_value(b),
{
    let n = (a.len() - 1) as nat;
    let p = pow256(n);
    lemma_le_value_bound(a.drop_last());
    let la = a.last() as nat;
    let lb = b.last() as nat;
    assert(le_value(a.drop_last()) + la * p < le_value(b.drop_last()) + lb * p) by (nonlinear_arith)
        requires
            le_value(a.drop_last()) < p,
            la < lb,
    ;
}

/// Whether `hash`, read as a little-endian number, is at most `target`: the hash is a share.
pub fn hash_meets_target(hash: &[u8; 32], target: &[u8; 32]) -> (meets: bool)
    ensures
        meets == (le_value(hash@) <= le_value(target@)),
{
    let mut i: usize = 32;
    while i > 0
        invariant
            i <= 32,
            hash@.len() == 32,
            target@.len() == 32,
            hash@.subrange(i as int, 32) == target@.subrange(i as int, 32),
        decreases i,
    {
        i = i - 1;
        let h = hash[i];
        let t = target[i];
        if h != t {
            proof {
                lemma_le_value_top_equal(hash@, target@, i as int);
                let ha = hash@.subrange(0, i + 1);
                let ta = target@.subrange(0, i + 1);
                assert(ha.last() == h && ta.last() == t);
                if h < t {
                    lemma_le_value_top_byte(ha, ta);
                } else {
                    lemma_le_value_top_byte(ta, ha);
                }
            }
            return h < t;
        }
        assert(hash@.subrange(i as int, 32) =~= seq![h] + hash@.subrange(i + 1, 32));
        assert(target@.subrange(i as int, 32) =~= seq![t] + target@.subrange(i + 1, 32));
    }
    assert(hash@ =~= hash@.subrange(0, 32));
    assert(target@ =~= target@.subrange(0, 32));
    true
}

/// How long to sleep before the next hash, if at all: a miner running at
/// `cpu_usage_percent` works for that many milliseconds of every throttle window and sleeps
/// for the rest of it.
pub fn throttle_sleep_ms(cpu_usage_percent: u64, elapsed_in_window_ms: u64) -> (sleep_ms: Option<u64>)
    requires
        cpu_usage_percent <= CPU_THROTTLE_WINDOW_MS,
    ensures
        sleep_ms == (if cpu_usage_percent < 100 && elapsed_in_window_ms >= cpu_usage_percent {
            Some((CPU_THROTTLE_WINDOW_MS - cpu_usage_percent) as u64)
        } else {
            None::<u64>
        }),
{
    if cpu_usage_percent < 100 && elapsed_in_window_ms >= cpu_usage_percent {
        Some(CPU_THROTTLE_WINDOW_MS - cpu_usage_percent)
    } else {
        None
    }
}

/// The double-SHA256 hash of the block header with these fields, in the byte order of the
/// hash (the order `le_value` reads).
pub uninterp spec fn spec_block_header_hash(
    version: u32,
    prev_hash: Seq<u8>,
    merkle_root: Seq<u8>,
    time: u32,
    bits: u32,
    nonce: u32,
) -> Seq<u8>;

/// `Header::block_hash` of `bitcoin` on the header with these fields; the version's bits are
/// read as the header's signed version.
#[verifier::external_body]
fn block_header_hash(
    version: u32,
    prev_hash: &[u8; 32],
    merkle_root: &[u8; 32],
    time: u32,
    bits: u32,
    nonce: u32,
) -> (hash: [u8; 32])
    ensures
        hash@ == spec_block_header_hash(version, prev_hash@, merkle_root@, time, bits, nonce),
{
    let header = Header {
        version: Version::from_consensus(version as i32),
        prev_blockhash: <BlockHash as stratum_apps::stratum_core::bitcoin::hashes::Hash>::from_byte_array(*prev_hash),
        merkle_root: <TxMerkleNode as stratum_apps::stratum_core::bitcoin::hashes::Hash>::from_byte_array(*merkle_root),
        time,
        bits: CompactTarget::from_consensus(bits),
        nonce,
    };
    <BlockHash as stratum_apps::stratum_core::bitcoin::hashes::Hash>::to_byte_array(header.block_hash())
}

/// The merkle root of a job whose coinbase is `coinbase_tx_prefix ++ extranonce ++
/// coinbase_tx_suffix`, folded with `path`; `None` when those bytes are not a coinbase
/// transaction.
pub uninterp spec fn spec_merkle_root_from_path(
    coinbase_tx_prefix: Seq<u8>,
    coinbase_tx_suffix: Seq<u8>,
    extranonce: Seq<u8>,
    path: Seq<[u8; 32]>,
) -> Option<[u8; 32]>;

/// `merkle_root_from_path` of `channels_sv2`.
#[verifier::external_body]
fn merkle_root(
    coinbase_tx_prefix: &[u8],
    coinbase_tx_suffix: &[u8],
    extranonce: &[u8],
    path: &Vec<[u8; 32]>,
) -> (root: Option<[u8; 32]>)
    ensures
        root == spec_merkle_root_from_path(coinbase_tx_prefix@, coinbase_tx_suffix@, extranonce@, path@),
{
    merkle_root_from_path(coinbase_tx_prefix, coinbase_tx_suffix, extranonce, path.as_slice())
}

/// `n` zero bytes.
pub open spec fn zeros(n: nat) -> Seq<u8> {
    Seq::new(n, |i: int| 0u8)
}

/// The rollable part of an extended channel's extranonce, which this miner never rolls: all
/// zero, so the merkle root is computed once per job.
pub fn zero_extranonce(size: usize) -> (extranonce: Vec<u8>)
    ensures
        extranonce@ == zeros(size as nat),
{
    let mut extranonce: Vec<u8> = Vec::new();
    let mut i: usize = 0;
    while i < size
        invariant
            i <= size,
            extranonce@ == zeros(i as nat),
        decreases size - i,
    {
        extranonce.push(0u8);
        i = i + 1;
        assert(extranonce@ =~= zeros(i as nat));
    }
    extranonce
}

/// The merkle root an extended channel mines a job on: the job's extranonce prefix followed
/// by the zero rollable extranonce completes its coinbase.
pub fn extended_job_merkle_root(
    coinbase_tx_prefix: &[u8],
    coinbase_tx_suffix: &[u8],
    extranonce_prefix: &[u8],
    rollable_extranonce_size: usize,
    merkle_path: &Vec<[u8; 32]>,
) -> (root: Option<[u8; 32]>)
    ensures
        root == spec_merkle_root_from_path(
            coinbase_tx_prefix@,
            coinbase_tx_suffix@,
            extranonce_prefix@ + zeros(rollable_extranonce_size as nat),
            merkle_path@,
        ),
{
    let mut full_extranonce: Vec<u8> = Vec::new();
    let mut i: usize = 0;
    while i < extranonce_prefix.len()
        invariant
            i <= extranonce_prefix@.len(),
            full_extranonce@ == extranonce_prefix@.subrange(0, i as int),
        decreases extranonce_prefix@.len() - i,
    {
        full_extranonce.push(extranonce_prefix[i]);
        i = i + 1;
        assert(full_extranonce@ =~= extranonce_prefix@.subrange(0, i as int));
    }
    let mut j: usize = 0;
    while j < rollable_extranonce_size
        invariant
            j <= rollable_extranonce_size,
            full_extranonce@ == extranonce_prefix@ + zeros(j as nat),
        decreases rollable_extranonce_size - j,
    {
        full_extranonce.push(0u8);
        j = j + 1;
        assert(full_extranonce@ =~= extranonce_prefix@ + zeros(j as nat));
    }
    merkle_root(coinbase_tx_prefix, coinbase_tx_suffix, full_extranonce.as_slice(), merkle_path)
}

/// Whether a job just stored on a channel restarts mining at once: a job that carries its
/// `min_ntime` is already active; one without is a future job, waiting for its
/// SetNewPrevHash. (A SetNewPrevHash always restarts mining.)
pub fn job_starts_mining(min_ntime: Option<u32>) -> (starts: bool)
    ensures
        starts == min_ntime is Some,
{
    min_ntime.is_some()
}

/// The header fields of a channel's active job and the channel's target, all a miner task
/// needs to hash it.
pub struct MiningJob {
    pub channel_id: u32,
    pub job_id: u32,
    pub version: u32,
    pub prev_hash: [u8; 32],
    pub merkle_root: [u8; 32],
    pub nbits: u32,
    pub min_ntime: u32,
    pub target: [u8; 32],
}

/// A header position: the nonce and timestamp a share was found at.
#[derive(Clone, Copy, Debug, PartialEq, Eq, Structural)]
pub struct SharePosition {
    pub nonce: u32,
    pub ntime: u32,
}

/// What one step of a miner task did.
#[derive(Clone, Copy, Debug, PartialEq, Eq, Structural)]
pub enum MiningStep {
    /// The header hashed at this position meets the channel's target: submit it.
    Share(SharePosition),
    /// A header was hashed; it is not a share.
    NoShare,
    /// Every nonce of the current timestamp is spent; the next second brings fresh ones.
    WaitForClock,
    /// Mining on this job is over.
    Stop,
}

/// Where a miner task stands on its job: the next header position to hash, whether the
/// nonces of the current timestamp are not yet spent, and whether mining is over.
#[derive(Clone, Copy, Debug, PartialEq, Eq, Structural)]
pub struct MiningPosition {
    pub nonce: u32,
    pub ntime: u32,
    pub nonces_left: bool,
    pub finished: bool,
}

/// The position a task starts a job at: its `min_ntime`, nonce zero.
pub open spec fn start_position(job: MiningJob) -> MiningPosition {
    MiningPosition { nonce: 0, ntime: job.min_ntime, nonces_left: true, finished: false }
}

/// One step of mining `job` from position `p`, `elapsed_secs` seconds after the job became
/// active. A header's timestamp may only advance as real seconds pass, so the timestamp is
/// the job's `min_ntime` plus the elapsed seconds; a new second restarts the nonces. Each
/// step hashes the next position, if any nonce of the current second is left, and tells
/// whether the hash meets the channel's target.
pub open spec fn mining_step(job: MiningJob, p: MiningPosition, elapsed_secs: u64) -> (MiningPosition, MiningStep) {
    let clock = job.min_ntime + elapsed_secs;
    if p.finished {
        (p, MiningStep::Stop)
    } else if clock > u32::MAX {
        (MiningPosition { finished: true, ..p }, MiningStep::Stop)
    } else {
        let q = if clock > p.ntime {
            MiningPosition { nonce: 0, ntime: clock as u32, nonces_left: true, finished: false }
        } else {
            p
        };
        if !q.nonces_left {
            (q, MiningStep::WaitForClock)
        } else {
            let hash = spec_block_header_hash(job.version, job.prev_hash@, job.merkle_root@, q.ntime, job.nbits, q.nonce);
            let next = if q.nonce == u32::MAX {
                MiningPosition { nonces_left: false, ..q }
            } else {
                MiningPosition { nonce: (q.nonce + 1) as u32, ..q }
            };
            let step = if le_value(hash) <= le_value(job.target@) {
                MiningStep::Share(SharePosition { nonce: q.nonce, ntime: q.ntime })
            } else {
                MiningStep::NoShare
            };
            (next, step)
        }
    }
}

/// The steps of mining `job` from `p` at the successive elapsed times `elapsed`.
pub open spec fn mining_run(job: MiningJob, p: MiningPosition, elapsed: Seq<u64>) -> Seq<MiningStep>
    decreases elapsed.len(),
{
    if elapsed.len() == 0 {
        Seq::empty()
    } else {
        let (next, step) = mining_step(job, p, elapsed[0]);
        seq![step] + mining_run(job, next, elapsed.drop_first())
    }
}

/// A miner task's state on one job.
pub struct MiningSession {
    job: MiningJob,
    single_submit: bool,
    position: MiningPosition,
}

impl MiningSession {
    pub closed spec fn spec_job(&self) -> MiningJob {
        self.job
    }

    pub closed spec fn spec_position(&self) -> MiningPosition {
        self.position
    }

    pub closed spec fn spec_single_submit(&self) -> bool {
        self.single_submit
    }

    /// Starts mining `job` at its `min_ntime`, nonce zero.
    pub fn new(job: MiningJob, single_submit: bool) -> (s: Self)
        ensures
            s.spec_job() == job,
            s.spec_position() == start_position(job),
            s.spec_single_submit() == single_submit,
    {
        let position = MiningPosition { nonce: 0, ntime: job.min_ntime, nonces_left: true, finished: false };
        MiningSession { job, single_submit, position }
    }

    pub fn job(&self) -> (job: &MiningJob)
        ensures
            *job == self.spec_job(),
    {
        &self.job
    }

    pub fn position(&self) -> (p: MiningPosition)
        ensures
            p == self.spec_position(),
    {
        self.position
    }

    /// One step of mining, `elapsed_secs` seconds after the job became active.
    pub fn step(&mut self, elapsed_secs: u64) -> (step: MiningStep)
        ensures
            (final(self).spec_position(), step) == mining_step(
                old(self).spec_job(),
                old(self).spec_position(),
                elapsed_secs,
            ),
            final(self).spec_job() == old(self).spec_job(),
            final(self).spec_single_submit() == old(self).spec_single_submit(),
            step matches MiningStep::Share(s) ==> le_value(
                spec_block_header_hash(
                    old(self).spec_job().version,
                    old(self).spec_job().prev_hash@,
                    old(self).spec_job().merkle_root@,
                    s.ntime,
                    old(self).spec_job().nbits,
                    s.nonce,
                ),
            ) <= le_value(old(self).spec_job().target@),
    {
        if self.position.finished {
            return MiningStep::Stop;
        }
        if elapsed_secs > (u32::MAX - self.job.min_ntime) as u64 {
            self.position.finished = true;
            return MiningStep::Stop;
        }
        let clock: u32 = self.job.min_ntime + elapsed_secs as u32;
        if clock > self.position.ntime {
            self.position = MiningPosition { nonce: 0, ntime: clock, nonces_left: true, finished: false };
        }
        if !self.position.nonces_left {
            return MiningStep::WaitForClock;
        }
        let nonce = self.position.nonce;
        let ntime = self.position.ntime;
        let hash = block_header_hash(
            self.job.version,
            &self.job.prev_hash,
            &self.job.merkle_root,
            ntime,
            self.job.nbits,
            nonce,
        );
        let meets = hash_meets_target(&hash, &self.job.target);
        if nonce == u32::MAX {
            self.position.nonces_left = false;
        } else {
            self.position.nonce = nonce + 1;
        }
        if meets {
            MiningStep::Share(SharePosition { nonce, ntime })
        } else {
            MiningStep::NoShare
        }
    }

    /// A share of this session reached the mining server. With `single_submit`, mining stops
    /// for good; returns whether it did.
    pub fn on_share_submitted(&mut self) -> (stop: bool)
        ensures
            stop == old(self).spec_single_submit(),
            final(self).spec_position() == (if old(self).spec_single_submit() {
                MiningPosition { finished: true, ..old(self).spec_position() }
            } else {
                old(self).spec_position()
            }),
            final(self).spec_job() == old(self).spec_job(),
            final(self).spec_single_submit() == old(self).spec_single_submit(),
    {
        if self.single_submit {
            self.position.finished = true;
        }
        self.single_submit
    }
}

/// Share position `a` comes strictly before share position `b`.
pub open spec fn share_before(a: SharePosition, b: SharePosition) -> bool {
    a.ntime < b.ntime || (a.ntime == b.ntime && a.nonce < b.nonce)
}

/// Header position `q` is at or after the next position a task at `p` hashes.
pub open spec fn at_or_after(q: SharePosition, p: MiningPosition) -> bool {
    q.ntime > p.ntime || (q.ntime == p.ntime && p.nonces_left && q.nonce >= p.nonce)
}

/// The elapsed times of a clock: they never go backwards.
pub open spec fn non_decreasing(elapsed: Seq<u64>) -> bool {
    forall|i: int, j: int| 0 <= i <= j < elapsed.len() ==> elapsed[i] <= elapsed[j]
}

proof fn lemma_run_len(job: MiningJob, p: MiningPosition, elapsed: Seq<u64>)
    ensures
        mining_run(job, p, elapsed).len() == elapsed.len(),
    decreases elapsed.len(),
{
    if elapsed.len() > 0 {
        let (next, step) = mining_step(job, p, elapsed[0]);
        lemma_run_len(job, next, elapsed.drop_first());
    }
}

/// Every share of a run from `p` is at or after `p`'s next position.
proof fn lemma_run_shares_at_or_after(job: MiningJob, p: MiningPosition, elapsed: Seq<u64>, i: int)
    requires
        0 <= i < elapsed.len(),
        mining_run(job, p, elapsed)[i] is Share,
    ensures
        at_or_after(mining_run(job, p, elapsed)[i]->Share_0, p),
    decreases elapsed.len(),
{
    let (next, step) = mining_step(job, p, elapsed[0]);
    lemma_run_len(job, next, elapsed.drop_first());
    if i > 0 {
        assert(mining_run(job, p, elapsed)[i] == mining_run(job, next, elapsed.drop_first())[i - 1]);
        lemma_run_shares_at_or_after(job, next, elapsed.drop_first(), i - 1);
    }
}

/// A task never hashes a header position twice, so it never submits the same share twice:
/// the shares of a run come in strictly increasing position.
pub proof fn law_shares_never_repeat(job: MiningJob, p: MiningPosition, elapsed: Seq<u64>, i: int, j: int)
    requires
        0 <= i < j < elapsed.len(),
        mining_run(job, p, elapsed)[i] is Share,
        mining_run(job, p, elapsed)[j] is Share,
    ensures
        share_before(mining_run(job, p, elapsed)[i]->Share_0, mining_run(job, p, elapsed)[j]->Share_0),
    decreases elapsed.len(),
{
    let (next, step) = mining_step(job, p, elapsed[0]);
    let tail = elapsed.drop_first();
    lemma_run_len(job, next, tail);
    assert(mining_run(job, p, elapsed)[j] == mining_run(job, next, tail)[j - 1]);
    if i > 0 {
        assert(mining_run(job, p, elapsed)[i] == mining_run(job, next, tail)[i - 1]);
        law_shares_never_repeat(job, next, tail, i - 1, j - 1);
    } else {
        lemma_run_shares_at_or_after(job, next, tail, j - 1);
    }
}

/// A header's timestamp only advances as real seconds pass: on a clock that never goes
/// backwards, every share of a run carries a timestamp between the job's `min_ntime` and
/// `min_ntime` plus the seconds elapsed when it was found.
pub proof fn law_ntime_follows_the_clock(job: MiningJob, p: MiningPosition, elapsed: Seq<u64>, i: int)
    requires
        non_decreasing(elapsed),
        job.min_ntime <= p.ntime,
        0 <= i < elapsed.len(),
        p.ntime <= job.min_ntime + elapsed[0],
        mining_run(job, p, elapsed)[i] is Share,
    ensures
        job.min_ntime <= (mining_run(job, p, elapsed)[i]->Share_0).ntime <= job.min_ntime + elapsed[i],
    decreases elapsed.len(),
{
    let (next, step) = mining_step(job, p, elapsed[0]);
    let tail = elapsed.drop_first();
    lemma_run_len(job, next, tail);
    if i > 0 {
        assert(mining_run(job, p, elapsed)[i] == mining_run(job, next, tail)[i - 1]);
        assert(tail[0] == elapsed[1]);
        assert(non_decreasing(tail)) by {
            assert forall|a: int, b: int| 0 <= a <= b < tail.len() implies tail[a] <= tail[b] by {
                assert(tail[a] == elapsed[a + 1] && tail[b] == elapsed[b + 1]);
            }
        }
        law_ntime_follows_the_clock(job, next, tail, i - 1);
    }
}

/// Once a task is finished (single submit after its share), it mines nothing more.
pub proof fn law_finished_task_mines_nothing(job: MiningJob, p: MiningPosition, elapsed: Seq<u64>, i: int)
    requires
        p.finished,
        0 <= i < elapsed.len(),
    ensures
        mining_run(job, p, elapsed)[i] == MiningStep::Stop,
    decreases elapsed.len(),
{
    let tail = elapsed.drop_first();
    lemma_run_len(job, p, tail);
    if i > 0 {
        assert(mining_run(job, p, elapsed)[i] == mining_run(job, p, tail)[i - 1]);
        law_finished_task_mines_nothing(job, p, tail, i - 1);
    }
}


/// What one step hashes and reports. While the task is not finished, the clock still fits a
/// timestamp and a nonce is left, the step hashes the header at timestamp
/// `max(p.ntime, min_ntime + elapsed)` and nonce `0` on a new second (else `p.nonce`): the
/// header whose previous block hash is the job's `prev_hash` and whose merkle root is the
/// job's `merkle_root`, with the job's version and bits. It reports that position as a share
/// exactly when the header's hash, read as a number, is at most the channel's target.
pub proof fn law_step_reports_headers_meeting_the_target(job: MiningJob, p: MiningPosition, elapsed_secs: u64)
    requires
        !p.finished,
        job.min_ntime + elapsed_secs <= u32::MAX,
        job.min_ntime + elapsed_secs > p.ntime || p.nonces_left,
    ensures
        ({
            let clock = job.min_ntime + elapsed_secs;
            let ntime: u32 = if clock > p.ntime { clock as u32 } else { p.ntime };
            let nonce: u32 = if clock > p.ntime { 0 } else { p.nonce };
            let hash = spec_block_header_hash(
                job.version,
                job.prev_hash@,
                job.merkle_root@,
                ntime,
                job.nbits,
                nonce,
            );
            mining_step(job, p, elapsed_secs).1 == if le_value(hash) <= le_value(job.target@) {
                MiningStep::Share(SharePosition { nonce, ntime })
            } else {
                MiningStep::NoShare
            }
        }),
{
}

} // verus!
