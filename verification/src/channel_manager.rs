//! Channel and group state of one connection, and where each mining message goes.
use vstd::prelude::*;
use std::collections::HashMap;
use vstd::std_specs::iter::IteratorSpec;
use stratum_apps::stratum_core::channels_sv2::client::group::GroupChannel;
use crate::error::Sv2CpuMinerError;
use crate::group::{group_members, group_extranonce_size, group_id, new_group, group_add_channel, group_remove_channel, group_channel_ids, group_is_empty, group_full_extranonce_size};

verus! {

broadcast use vstd::std_specs::hash::group_hash_axioms;

/// The keys of a map, each once, in the map's own order.
fn map_keys<V>(m: &HashMap<u32, V>) -> (ids: Vec<u32>)
    ensures
        ids@.to_set() == m@.dom(),
        ids@.no_duplicates(),
{
    let mut ids: Vec<u32> = Vec::new();
    for k in it: m.keys()
        invariant
            it.seq().unref().to_set() == m@.dom(),
            it.seq().unref().no_duplicates(),
            ids@ == it.seq().unref().take(it.index()),
        ensures
            ids@ == it.seq().unref(),
    {
        ids.push(*k);
    }
    ids
}

/// Mining message types this client never accepts.
pub const MESSAGE_TYPE_SET_CUSTOM_MINING_JOB_SUCCESS: u8 = 0x23;
pub const MESSAGE_TYPE_SET_CUSTOM_MINING_JOB_ERROR: u8 = 0x24;

/// SetCustomMiningJob.Success: this client never declares custom jobs.
pub fn on_set_custom_mining_job_success() -> (r: Result<(), Sv2CpuMinerError>)
    ensures
        r == Err::<(), Sv2CpuMinerError>(
            Sv2CpuMinerError::UnexpectedMessage(0, MESSAGE_TYPE_SET_CUSTOM_MINING_JOB_SUCCESS),
        ),
{
    Err(Sv2CpuMinerError::UnexpectedMessage(0, MESSAGE_TYPE_SET_CUSTOM_MINING_JOB_SUCCESS))
}

/// SetCustomMiningJob.Error: this client never declares custom jobs.
pub fn on_set_custom_mining_job_error() -> (r: Result<(), Sv2CpuMinerError>)
    ensures
        r == Err::<(), Sv2CpuMinerError>(
            Sv2CpuMinerError::UnexpectedMessage(0, MESSAGE_TYPE_SET_CUSTOM_MINING_JOB_ERROR),
        ),
{
    Err(Sv2CpuMinerError::UnexpectedMessage(0, MESSAGE_TYPE_SET_CUSTOM_MINING_JOB_ERROR))
}

/// The two kinds of channel this miner opens.
#[derive(Clone, Copy, Debug, PartialEq, Eq, Structural)]
pub enum ChannelKind {
    Standard,
    Extended,
}

/// An open channel a message is dispatched to.
#[derive(Clone, Copy, Debug, PartialEq, Eq, Structural)]
pub struct ChannelRef {
    pub channel_id: u32,
    pub kind: ChannelKind,
}

/// One OpenStandardMiningChannel or OpenExtendedMiningChannel to send.
#[derive(Clone, Copy, Debug, PartialEq, Eq, Structural)]
pub struct OpenChannelRequest {
    pub request_id: u32,
    pub kind: ChannelKind,
}

/// The `i`th channel request of a connection that opens `n_standard` standard channels
/// before its extended ones.
pub open spec fn request_at(i: int, n_standard: u8) -> OpenChannelRequest {
    OpenChannelRequest {
        request_id: i as u32,
        kind: if i < n_standard {
            ChannelKind::Standard
        } else {
            ChannelKind::Extended
        },
    }
}

/// Whether `id` names an open channel of either kind.
pub open spec fn is_open(std: Map<u32, usize>, ext: Map<u32, usize>, id: u32) -> bool {
    std.contains_key(id) || ext.contains_key(id)
}

/// The kind under which a message for channel `id` is handled: standard channels first.
pub open spec fn route_of(std: Map<u32, usize>, ext: Map<u32, usize>, id: u32) -> Option<ChannelKind> {
    if std.contains_key(id) {
        Some(ChannelKind::Standard)
    } else if ext.contains_key(id) {
        Some(ChannelKind::Extended)
    } else {
        None
    }
}

/// The full extranonce size of open channel `id`, read from its standard entry first.
pub open spec fn size_of(std: Map<u32, usize>, ext: Map<u32, usize>, id: u32) -> Option<usize> {
    if std.contains_key(id) {
        Some(std[id])
    } else if ext.contains_key(id) {
        Some(ext[id])
    } else {
        None
    }
}

/// The channel ids a server message for `id` addresses: the members of `id` when it names a
/// group, otherwise `id` itself. Group and channel ids share one namespace per connection.
pub open spec fn addressed(groups: Map<u32, GroupChannel>, id: u32) -> Set<u32> {
    if groups.contains_key(id) {
        group_members(groups[id])
    } else {
        set![id]
    }
}

/// Where a message that every addressed open channel handles goes (SetNewPrevHash,
/// SetTarget, CloseChannel): each addressed channel that is open, under its kind.
pub open spec fn addressed_targets(
    std: Map<u32, usize>,
    ext: Map<u32, usize>,
    groups: Map<u32, GroupChannel>,
    id: u32,
) -> Set<ChannelRef> {
    Set::new(
        |r: ChannelRef|
            addressed(groups, id).contains(r.channel_id) && route_of(std, ext, r.channel_id)
                == Some(r.kind),
    )
}

/// Where a NewExtendedMiningJob for `id` goes: to every open member when `id` names a group
/// (standard members derive their own job from it), otherwise only to the extended channel
/// `id`; a standard channel never receives an extended job addressed to itself.
pub open spec fn extended_job_targets(
    std: Map<u32, usize>,
    ext: Map<u32, usize>,
    groups: Map<u32, GroupChannel>,
    id: u32,
) -> Set<ChannelRef> {
    if groups.contains_key(id) {
        addressed_targets(std, ext, groups, id)
    } else if ext.contains_key(id) {
        set![ChannelRef { channel_id: id, kind: ChannelKind::Extended }]
    } else {
        Set::empty()
    }
}

/// The consistency of a connection's channel and group state.
pub open spec fn groups_wf(std: Map<u32, usize>, ext: Map<u32, usize>, groups: Map<u32, GroupChannel>) -> bool {
    &&& forall|g: u32|
        #[trigger] groups.contains_key(g) ==> {
            &&& group_id(groups[g]) == g
            &&& group_members(groups[g]) != Set::<u32>::empty()
            &&& group_extranonce_size(groups[g]) is Some
            &&& !is_open(std, ext, g)
        }
    &&& forall|g: u32, m: u32|
        groups.contains_key(g) && #[trigger] group_members(groups[g]).contains(m) ==> is_open(
            std,
            ext,
            m,
        )
}

/// `new_groups` is `old_groups` once the channels in `leaving` have left every group and the
/// groups left empty have been dropped.
pub open spec fn groups_left(
    old_groups: Map<u32, GroupChannel>,
    new_groups: Map<u32, GroupChannel>,
    leaving: Set<u32>,
) -> bool {
    &&& forall|g: u32|
        #[trigger] new_groups.contains_key(g) <==> (old_groups.contains_key(g) && group_members(
            old_groups[g],
        ).difference(leaving) != Set::<u32>::empty())
    &&& forall|g: u32|
        #[trigger] new_groups.contains_key(g) ==> {
            &&& group_members(new_groups[g]) == group_members(old_groups[g]).difference(leaving)
            &&& group_extranonce_size(new_groups[g]) == group_extranonce_size(old_groups[g])
            &&& group_id(new_groups[g]) == group_id(old_groups[g])
        }
}

/// Why a newly opened channel cannot join group `group_channel_id`: its ids collide with ids
/// already in use (group and channel ids share one namespace), or its full extranonce size
/// differs from the group's.
pub open spec fn join_refused(
    std: Map<u32, usize>,
    ext: Map<u32, usize>,
    groups: Map<u32, GroupChannel>,
    channel_id: u32,
    group_channel_id: u32,
    full_extranonce_size: usize,
) -> bool {
    ||| is_open(std, ext, group_channel_id)
    ||| channel_id == group_channel_id
    ||| groups.contains_key(channel_id)
    ||| (groups.contains_key(group_channel_id) && match group_extranonce_size(groups[group_channel_id]) {
        Some(e) => e != full_extranonce_size,
        None => false,
    })
}

/// `new_groups` is `old_groups` with `channel_id` added to group `group_channel_id` (created
/// on first use), whose full extranonce size is now `full_extranonce_size`.
pub open spec fn groups_joined(
    old_groups: Map<u32, GroupChannel>,
    new_groups: Map<u32, GroupChannel>,
    channel_id: u32,
    group_channel_id: u32,
    full_extranonce_size: usize,
) -> bool {
    &&& new_groups.dom() == old_groups.dom().insert(group_channel_id)
    &&& forall|g: u32| #[trigger] old_groups.contains_key(g) && g != group_channel_id ==> new_groups[g] == old_groups[g]
    &&& group_members(new_groups[group_channel_id]) == (if old_groups.contains_key(group_channel_id) {
        group_members(old_groups[group_channel_id])
    } else {
        Set::<u32>::empty()
    }).insert(channel_id)
    &&& group_extranonce_size(new_groups[group_channel_id]) == Some(full_extranonce_size)
    &&& group_id(new_groups[group_channel_id]) == group_channel_id
}

/// The channels a CloseChannel for `id` closes: the addressed ones that are open.
pub open spec fn closed_ids(
    std: Map<u32, usize>,
    ext: Map<u32, usize>,
    groups: Map<u32, GroupChannel>,
    id: u32,
) -> Set<u32> {
    Set::new(|m: u32| addressed(groups, id).contains(m) && is_open(std, ext, m))
}

/// A SetGroupChannel listing `ids` can be applied: every listed channel is open and they all
/// share the first one's full extranonce size.
pub open spec fn regroup_valid(std: Map<u32, usize>, ext: Map<u32, usize>, ids: Seq<u32>) -> bool {
    forall|i: int|
        0 <= i < ids.len() ==> is_open(std, ext, #[trigger] ids[i]) && size_of(std, ext, ids[i])
            == size_of(std, ext, ids[0])
}

/// `new_groups` is `old_groups` after group `group_channel_id` was redefined as exactly the
/// channels `ids` with full extranonce size `size`: the listed channels left their previous
/// groups, groups left empty were dropped, and an empty list removes the group.
pub open spec fn groups_regrouped(
    old_groups: Map<u32, GroupChannel>,
    new_groups: Map<u32, GroupChannel>,
    group_channel_id: u32,
    ids: Seq<u32>,
    size: Option<usize>,
) -> bool {
    &&& forall|g: u32|
        g != group_channel_id ==> (#[trigger] new_groups.contains_key(g) <==> (old_groups.contains_key(g)
            && group_members(old_groups[g]).difference(ids.to_set()) != Set::<u32>::empty()))
    &&& forall|g: u32|
        g != group_channel_id && #[trigger] new_groups.contains_key(g) ==> {
            &&& group_members(new_groups[g]) == group_members(old_groups[g]).difference(ids.to_set())
            &&& group_extranonce_size(new_groups[g]) == group_extranonce_size(old_groups[g])
            &&& group_id(new_groups[g]) == group_id(old_groups[g])
        }
    &&& new_groups.contains_key(group_channel_id) <==> ids.len() > 0
    &&& ids.len() > 0 ==> {
        &&& group_members(new_groups[group_channel_id]) == ids.to_set()
        &&& group_extranonce_size(new_groups[group_channel_id]) == size
        &&& group_id(new_groups[group_channel_id]) == group_channel_id
    }
}

/// Channel and group state of one connection to a mining server, and the settings its
/// channels are opened with. The channels themselves (jobs, targets, hashing) live with the
/// program that drives the connection; this keeps which ids are open, under which kind, with
/// which full extranonce size, and which groups they form.
pub struct ChannelManager {
    user_identity: String,
    n_extended_channels: u8,
    n_standard_channels: u8,
    single_submit: bool,
    cpu_usage_percent: u64,
    requires_standard_jobs: bool,
    standard_channels: HashMap<u32, usize>,
    extended_channels: HashMap<u32, usize>,
    group_channels: HashMap<u32, GroupChannel>,
}

/// The name this state carried as the handler of mining messages.
pub type Sv2CpuMinerClientHandler = ChannelManager;

impl ChannelManager {
    /// Open standard channels and their full extranonce sizes.
    pub closed spec fn standard(&self) -> Map<u32, usize> {
        self.standard_channels@
    }

    /// Open extended channels and their full extranonce sizes.
    pub closed spec fn extended(&self) -> Map<u32, usize> {
        self.extended_channels@
    }

    /// Groups by group channel id.
    pub closed spec fn groups(&self) -> Map<u32, GroupChannel> {
        self.group_channels@
    }

    /// Whether the connection declared REQUIRES_STANDARD_JOBS.
    pub closed spec fn standard_jobs_only(&self) -> bool {
        self.requires_standard_jobs
    }

    pub closed spec fn spec_n_standard(&self) -> u8 {
        self.n_standard_channels
    }

    pub closed spec fn spec_n_extended(&self) -> u8 {
        self.n_extended_channels
    }

    pub closed spec fn spec_user_identity(&self) -> Seq<char> {
        self.user_identity@
    }

    pub closed spec fn spec_single_submit(&self) -> bool {
        self.single_submit
    }

    pub closed spec fn spec_cpu_usage_percent(&self) -> u64 {
        self.cpu_usage_percent
    }

    pub open spec fn wf(&self) -> bool {
        groups_wf(self.standard(), self.extended(), self.groups())
    }

    /// A connection with no channel open yet.
    pub fn new(
        user_identity: String,
        n_extended_channels: u8,
        n_standard_channels: u8,
        single_submit: bool,
        cpu_usage_percent: u64,
        requires_standard_jobs: bool,
    ) -> (m: Self)
        ensures
            m.wf(),
            m.standard() == Map::<u32, usize>::empty(),
            m.extended() == Map::<u32, usize>::empty(),
            m.groups() == Map::<u32, GroupChannel>::empty(),
            m.standard_jobs_only() == requires_standard_jobs,
            m.spec_user_identity() == user_identity@,
            m.spec_n_extended() == n_extended_channels,
            m.spec_n_standard() == n_standard_channels,
            m.spec_single_submit() == single_submit,
            m.spec_cpu_usage_percent() == cpu_usage_percent,
    {
        ChannelManager {
            user_identity,
            n_extended_channels,
            n_standard_channels,
            single_submit,
            cpu_usage_percent,
            requires_standard_jobs,
            standard_channels: HashMap::new(),
            extended_channels: HashMap::new(),
            group_channels: HashMap::new(),
        }
    }

    pub fn user_identity(&self) -> (s: &String)
        ensures
            s@ == self.spec_user_identity(),
    {
        &self.user_identity
    }

    pub fn single_submit(&self) -> (b: bool)
        ensures
            b == self.spec_single_submit(),
    {
        self.single_submit
    }

    pub fn cpu_usage_percent(&self) -> (p: u64)
        ensures
            p == self.spec_cpu_usage_percent(),
    {
        self.cpu_usage_percent
    }

    pub fn requires_standard_jobs(&self) -> (b: bool)
        ensures
            b == self.standard_jobs_only(),
    {
        self.requires_standard_jobs
    }

    /// The channels to request, in order: the standard ones with request ids `0..n_standard`,
    /// then the extended ones with the request ids that follow.
    pub fn open_channels(&self) -> (requests: Vec<OpenChannelRequest>)
        ensures
            requests@.len() == self.spec_n_standard() + self.spec_n_extended(),
            forall|i: int|
                0 <= i < requests@.len() ==> #[trigger] requests@[i] == request_at(
                    i,
                    self.spec_n_standard(),
                ),
            forall|i: int|
                0 <= i < requests@.len() ==> (#[trigger] requests@[i]).request_id == i && (
                requests@[i].kind == ChannelKind::Standard <==> i < self.spec_n_standard()) && (
                requests@[i].kind == ChannelKind::Extended <==> i >= self.spec_n_standard()),
    {
        let mut requests: Vec<OpenChannelRequest> = Vec::new();
        let n_standard = self.n_standard_channels as u32;
        let n_extended = self.n_extended_channels as u32;
        let mut i: u32 = 0;
        while i < n_standard
            invariant
                i <= n_standard,
                n_standard == self.spec_n_standard(),
                requests@.len() == i,
                forall|j: int| 0 <= j < i ==> #[trigger] requests@[j] == request_at(j, n_standard as u8),
            decreases n_standard - i,
        {
            requests.push(OpenChannelRequest { request_id: i, kind: ChannelKind::Standard });
            i = i + 1;
        }
        let mut k: u32 = 0;
        while k < n_extended
            invariant
                k <= n_extended,
                n_standard == self.spec_n_standard(),
                n_extended == self.spec_n_extended(),
                requests@.len() == n_standard + k,
                forall|j: int|
                    0 <= j < requests@.len() ==> #[trigger] requests@[j] == request_at(
                        j,
                        n_standard as u8,
                    ),
            decreases n_extended - k,
        {
            requests.push(
                OpenChannelRequest { request_id: k + n_standard, kind: ChannelKind::Extended },
            );
            k = k + 1;
        }
        requests
    }

    /// The ids of the open channels of one kind, each once.
    pub fn channel_ids(&self, kind: ChannelKind) -> (ids: Vec<u32>)
        ensures
            ids@.no_duplicates(),
            ids@.to_set() == (match kind {
                ChannelKind::Standard => self.standard().dom(),
                ChannelKind::Extended => self.extended().dom(),
            }),
    {
        match kind {
            ChannelKind::Standard => map_keys(&self.standard_channels),
            ChannelKind::Extended => map_keys(&self.extended_channels),
        }
    }

    /// The ids of the groups, each once.
    pub fn group_ids(&self) -> (ids: Vec<u32>)
        ensures
            ids@.no_duplicates(),
            ids@.to_set() == self.groups().dom(),
    {
        map_keys(&self.group_channels)
    }

    /// Full extranonce size of an open channel, which every member of a group must share.
    pub fn full_extranonce_size(&self, channel_id: u32) -> (size: Option<usize>)
        ensures
            size == size_of(self.standard(), self.extended(), channel_id),
    {
        if let Some(size) = self.standard_channels.get(&channel_id) {
            return Some(*size);
        }
        if let Some(size) = self.extended_channels.get(&channel_id) {
            return Some(*size);
        }
        None
    }

    /// The kind under which a message for channel `channel_id` is handled, if it is open.
    pub fn channel_kind(&self, channel_id: u32) -> (kind: Option<ChannelKind>)
        ensures
            kind == route_of(self.standard(), self.extended(), channel_id),
    {
        if self.standard_channels.contains_key(&channel_id) {
            Some(ChannelKind::Standard)
        } else if self.extended_channels.contains_key(&channel_id) {
            Some(ChannelKind::Extended)
        } else {
            None
        }
    }

    /// Channels addressed by a server message: the members of `channel_id` when it names a
    /// group, otherwise `channel_id` itself.
    pub fn addressed_channels(&self, channel_id: u32) -> (ids: Vec<u32>)
        ensures
            ids@.to_set() == addressed(self.groups(), channel_id),
            ids@.no_duplicates(),
    {
        match self.group_channels.get(&channel_id) {
            Some(group) => group_channel_ids(group),
            None => {
                let ids = vec![channel_id];
                assert(ids@.to_set() =~= set![channel_id]) by {
                    assert(ids@ == seq![channel_id]);
                    assert(ids@.contains(channel_id));
                }
                ids
            },
        }
    }

    /// The open channels among `ids`, each under the kind its messages are handled as.
    fn open_refs(&self, ids: &Vec<u32>) -> (refs: Vec<ChannelRef>)
        requires
            ids@.no_duplicates(),
        ensures
            refs@.no_duplicates(),
            forall|r: ChannelRef|
                #[trigger] refs@.contains(r) <==> (ids@.contains(r.channel_id) && route_of(
                    self.standard(),
                    self.extended(),
                    r.channel_id,
                ) == Some(r.kind)),
    {
        let mut refs: Vec<ChannelRef> = Vec::new();
        let mut i: usize = 0;
        while i < ids.len()
            invariant
                i <= ids@.len(),
                ids@.no_duplicates(),
                refs@.no_duplicates(),
                forall|r: ChannelRef|
                    #[trigger] refs@.contains(r) <==> (ids@.subrange(0, i as int).contains(
                        r.channel_id,
                    ) && route_of(self.standard(), self.extended(), r.channel_id) == Some(r.kind)),
            decreases ids@.len() - i,
        {
            let id = ids[i];
            let kind = self.channel_kind(id);
            let ghost before = refs@;
            assert forall|j: int| 0 <= j < i implies ids@[j] != id by {
                if ids@[j] == id {
                    assert(ids@[j] == ids@[i as int]);
                }
            }
            assert(!ids@.subrange(0, i as int).contains(id));
            match kind {
                Some(k) => {
                    let r = ChannelRef { channel_id: id, kind: k };
                    assert(!before.contains(r));
                    refs.push(r);
                    assert forall|a: int, b: int|
                        0 <= a < refs@.len() && 0 <= b < refs@.len() && a != b implies refs@[a]
                        != refs@[b] by {
                        if a < before.len() && b < before.len() {
                            assert(refs@[a] == before[a] && refs@[b] == before[b]);
                        } else if a == before.len() {
                            assert(before.contains(refs@[b]));
                        } else {
                            assert(before.contains(refs@[a]));
                        }
                    }
                },
                None => {},
            }
            assert(ids@.subrange(0, i + 1) =~= ids@.subrange(0, i as int).push(id));
            assert forall|x: ChannelRef|
                #[trigger] refs@.contains(x) <==> (ids@.subrange(0, i + 1).contains(x.channel_id)
                    && route_of(self.standard(), self.extended(), x.channel_id) == Some(x.kind)) by {
                if refs@.contains(x) {
                    if !before.contains(x) {
                        let k = choose|k: int| 0 <= k < refs@.len() && refs@[k] == x;
                        assert(k == before.len());
                        assert(ids@.subrange(0, i + 1)[i as int] == id);
                    }
                }
                if ids@.subrange(0, i + 1).contains(x.channel_id) && route_of(
                    self.standard(),
                    self.extended(),
                    x.channel_id,
                ) == Some(x.kind) {
                    if x.channel_id == id {
                        assert(refs@[refs@.len() - 1] == x);
                    } else {
                        let sub = ids@.subrange(0, i + 1);
                        let k = choose|k: int| 0 <= k < sub.len() && #[trigger] sub[k] == x.channel_id;
                        assert(ids@.subrange(0, i as int)[k] == x.channel_id);
                        assert(before.contains(x));
                        let q = choose|q: int| 0 <= q < before.len() && before[q] == x;
                        assert(refs@[q] == x);
                    }
                }
            }
            i = i + 1;
        }
        assert(ids@.subrange(0, ids@.len() as int) =~= ids@);
        refs
    }

    /// Records a newly opened channel as a member of its group, creating the group on first
    /// use. Returns `false`, changing nothing, when the channel cannot be used on this
    /// connection (see [`join_refused`]).
    fn join_group(&mut self, channel_id: u32, group_channel_id: u32, full_extranonce_size: usize) -> (joined: bool)
        requires
            old(self).wf(),
        ensures
            joined == !join_refused(
                old(self).standard(),
                old(self).extended(),
                old(self).groups(),
                channel_id,
                group_channel_id,
                full_extranonce_size,
            ),
            joined ==> groups_joined(
                old(self).groups(),
                final(self).groups(),
                channel_id,
                group_channel_id,
                full_extranonce_size,
            ),
            !joined ==> final(self).groups() == old(self).groups(),
            final(self).standard() == old(self).standard(),
            final(self).extended() == old(self).extended(),
            final(self).standard_jobs_only() == old(self).standard_jobs_only(),
    {
        let reinterprets_channel = self.standard_channels.contains_key(&group_channel_id)
            || self.extended_channels.contains_key(&group_channel_id);
        if reinterprets_channel || channel_id == group_channel_id
            || self.group_channels.contains_key(&channel_id) {
            return false;
        }
        if let Some(group) = self.group_channels.get(&group_channel_id) {
            if let Some(size) = group_full_extranonce_size(group) {
                if size != full_extranonce_size {
                    return false;
                }
            }
        }
        let mut group = match self.group_channels.remove(&group_channel_id) {
            Some(group) => group,
            None => new_group(group_channel_id),
        };
        let added = group_add_channel(&mut group, channel_id, full_extranonce_size);
        self.group_channels.insert(group_channel_id, group);
        assert(self.groups().dom() =~= old(self).groups().dom().insert(group_channel_id));
        added
    }

    /// An OpenStandardMiningChannel.Success whose channel was built: the channel joins its
    /// group and is recorded with its extranonce prefix length as full extranonce size.
    /// Returns whether the channel is kept; a refused one is dropped, changing nothing.
    pub fn on_standard_channel_opened(
        &mut self,
        channel_id: u32,
        group_channel_id: u32,
        extranonce_prefix_len: usize,
    ) -> (kept: bool)
        requires
            old(self).wf(),
        ensures
            final(self).wf(),
            kept == !join_refused(
                old(self).standard(),
                old(self).extended(),
                old(self).groups(),
                channel_id,
                group_channel_id,
                extranonce_prefix_len,
            ),
            kept ==> groups_joined(
                old(self).groups(),
                final(self).groups(),
                channel_id,
                group_channel_id,
                extranonce_prefix_len,
            ),
            kept ==> final(self).standard() == old(self).standard().insert(channel_id, extranonce_prefix_len),
            !kept ==> final(self).standard() == old(self).standard() && final(self).groups()
                == old(self).groups(),
            final(self).extended() == old(self).extended(),
            final(self).standard_jobs_only() == old(self).standard_jobs_only(),
    {
        let joined = self.join_group(channel_id, group_channel_id, extranonce_prefix_len);
        if joined {
            self.standard_channels.insert(channel_id, extranonce_prefix_len);
            assert(self.wf()) by {
                self.lemma_joined_wf(*old(self), channel_id, group_channel_id, extranonce_prefix_len);
            }
        }
        joined
    }

    /// An OpenExtendedMiningChannel.Success whose channel was built: the channel joins its
    /// group and is recorded with its full extranonce size, its prefix length plus the
    /// extranonce size the server left it to roll. Returns whether the channel is kept.
    pub fn on_extended_channel_opened(
        &mut self,
        channel_id: u32,
        group_channel_id: u32,
        extranonce_prefix_len: usize,
        extranonce_size: u16,
    ) -> (kept: bool)
        requires
            old(self).wf(),
            extranonce_prefix_len + extranonce_size <= usize::MAX,
        ensures
            final(self).wf(),
            kept == !join_refused(
                old(self).standard(),
                old(self).extended(),
                old(self).groups(),
                channel_id,
                group_channel_id,
                (extranonce_prefix_len + extranonce_size) as usize,
            ),
            kept ==> groups_joined(
                old(self).groups(),
                final(self).groups(),
                channel_id,
                group_channel_id,
                (extranonce_prefix_len + extranonce_size) as usize,
            ),
            kept ==> final(self).extended() == old(self).extended().insert(
                channel_id,
                (extranonce_prefix_len + extranonce_size) as usize,
            ),
            !kept ==> final(self).extended() == old(self).extended() && final(self).groups()
                == old(self).groups(),
            final(self).standard() == old(self).standard(),
            final(self).standard_jobs_only() == old(self).standard_jobs_only(),
    {
        let full_extranonce_size = extranonce_prefix_len + extranonce_size as usize;
        let joined = self.join_group(channel_id, group_channel_id, full_extranonce_size);
        if joined {
            self.extended_channels.insert(channel_id, full_extranonce_size);
            assert(self.wf()) by {
                self.lemma_joined_wf(*old(self), channel_id, group_channel_id, full_extranonce_size);
            }
        }
        joined
    }

    /// After a channel joined a group and was recorded as open, the state is consistent again.
    proof fn lemma_joined_wf(self, before: Self, channel_id: u32, group_channel_id: u32, size: usize)
        requires
            before.wf(),
            !join_refused(before.standard(), before.extended(), before.groups(), channel_id, group_channel_id, size),
            groups_joined(before.groups(), self.groups(), channel_id, group_channel_id, size),
            self.standard() == before.standard().insert(channel_id, size) && self.extended() == before.extended()
                || self.extended() == before.extended().insert(channel_id, size) && self.standard() == before.standard(),
        ensures
            self.wf(),
    {
        let std = self.standard();
        let ext = self.extended();
        let groups = self.groups();
        assert forall|g: u32| #[trigger] groups.contains_key(g) implies {
            &&& group_id(groups[g]) == g
            &&& group_members(groups[g]) != Set::<u32>::empty()
            &&& group_extranonce_size(groups[g]) is Some
            &&& !is_open(std, ext, g)
        } by {
            if g == group_channel_id {
                assert(group_members(groups[g]).contains(channel_id));
            } else {
                assert(before.groups().contains_key(g));
                assert(g != channel_id);
            }
        }
        assert forall|g: u32, m: u32|
            groups.contains_key(g) && #[trigger] group_members(groups[g]).contains(m) implies is_open(
            std,
            ext,
            m,
        ) by {
            if g != group_channel_id {
                assert(before.groups().contains_key(g));
                assert(group_members(before.groups()[g]).contains(m));
            } else if m != channel_id {
                assert(before.groups().contains_key(g));
                assert(group_members(before.groups()[g]).contains(m));
            }
        }
    }

    /// The channels in `leaving` leave every group; groups left empty are dropped.
    fn leave_groups(&mut self, leaving: &Vec<u32>)
        ensures
            groups_left(old(self).groups(), final(self).groups(), leaving@.to_set()),
            final(self).standard() == old(self).standard(),
            final(self).extended() == old(self).extended(),
            final(self).standard_jobs_only() == old(self).standard_jobs_only(),
    {
        let ids = map_keys(&self.group_channels);
        let ghost old_groups = old(self).groups();
        let ghost l = leaving@.to_set();
        let mut i: usize = 0;
        while i < ids.len()
            invariant
                i <= ids@.len(),
                ids@.to_set() == old_groups.dom(),
                ids@.no_duplicates(),
                old_groups == old(self).groups(),
                l == leaving@.to_set(),
                self.standard() == old(self).standard(),
                self.extended() == old(self).extended(),
                self.standard_jobs_only() == old(self).standard_jobs_only(),
                forall|g: u32|
                    #[trigger] self.groups().contains_key(g) ==> old_groups.contains_key(g),
                forall|g: u32|
                    old_groups.contains_key(g) && !ids@.subrange(0, i as int).contains(g) ==> (
                    #[trigger] self.groups().contains_key(g) && self.groups()[g] == old_groups[g]),
                forall|g: u32|
                    #![trigger self.groups().contains_key(g)]
                    #![trigger ids@.subrange(0, i as int).contains(g)]
                    ids@.subrange(0, i as int).contains(g) ==> {
                        &&& self.groups().contains_key(g) <==> group_members(
                            old_groups[g],
                        ).difference(l) != Set::<u32>::empty()
                        &&& self.groups().contains_key(g) ==> {
                            &&& group_members(self.groups()[g]) == group_members(
                                old_groups[g],
                            ).difference(l)
                            &&& group_extranonce_size(self.groups()[g]) == group_extranonce_size(
                                old_groups[g],
                            )
                            &&& group_id(self.groups()[g]) == group_id(old_groups[g])
                        }
                    },
            decreases ids@.len() - i,
        {
            let gid = ids[i];
            assert(ids@[i as int] == gid);
            assert(ids@.contains(gid));
            assert(ids@.to_set().contains(gid));
            assert(!ids@.subrange(0, i as int).contains(gid)) by {
                if ids@.subrange(0, i as int).contains(gid) {
                    let k = choose|k: int| 0 <= k < i && #[trigger] ids@.subrange(0, i as int)[k] == gid;
                    assert(ids@[k] == ids@[i as int]);
                }
            }
            let ghost before = self.groups();
            if let Some(mut group) = self.group_channels.remove(&gid) {
                let mut j: usize = 0;
                while j < leaving.len()
                    invariant
                        j <= leaving@.len(),
                        group_members(group) == group_members(old_groups[gid]).difference(
                            leaving@.subrange(0, j as int).to_set(),
                        ),
                        group_extranonce_size(group) == group_extranonce_size(old_groups[gid]),
                        group_id(group) == group_id(old_groups[gid]),
                        old_groups.contains_key(gid),
                    decreases leaving@.len() - j,
                {
                    group_remove_channel(&mut group, leaving[j]);
                    let ghost s0 = leaving@.subrange(0, j as int);
                    let ghost s1 = leaving@.subrange(0, j + 1);
                    assert(s1 =~= s0.push(leaving@[j as int]));
                    assert forall|x: u32| s1.to_set().contains(x) <==> s0.to_set().insert(leaving@[j as int]).contains(x) by {
                        if s1.contains(x) && x != leaving@[j as int] {
                            let k = choose|k: int| 0 <= k < s1.len() && #[trigger] s1[k] == x;
                            assert(s0[k] == x);
                        }
                        if s0.contains(x) {
                            let k = choose|k: int| 0 <= k < s0.len() && #[trigger] s0[k] == x;
                            assert(s1[k] == x);
                        }
                        if x == leaving@[j as int] {
                            assert(s1[j as int] == x);
                        }
                    }
                    assert(s1.to_set() =~= s0.to_set().insert(leaving@[j as int]));
                    j = j + 1;
                    assert(group_members(group) =~= group_members(old_groups[gid]).difference(
                        leaving@.subrange(0, j as int).to_set(),
                    ));
                }
                assert(leaving@.subrange(0, leaving@.len() as int) =~= leaving@);
                if !group_is_empty(&group) {
                    self.group_channels.insert(gid, group);
                }
            }
            assert(ids@.subrange(0, i + 1) =~= ids@.subrange(0, i as int).push(gid));
            assert(ids@.subrange(0, i + 1)[i as int] == gid);
            assert(ids@.subrange(0, i + 1).contains(gid));
            assert forall|g: u32|
                old_groups.contains_key(g) && !ids@.subrange(0, i + 1).contains(g) implies (
                #[trigger] self.groups().contains_key(g) && self.groups()[g] == old_groups[g]) by {
                assert(g != gid);
                assert(!ids@.subrange(0, i as int).contains(g));
                assert(before.contains_key(g));
            }
            i = i + 1;
        }
        assert(ids@.subrange(0, ids@.len() as int) =~= ids@);
        assert forall|g: u32| #[trigger] self.groups().contains_key(g) <==> (old_groups.contains_key(g)
            && group_members(old_groups[g]).difference(l) != Set::<u32>::empty()) by {
            if old_groups.contains_key(g) {
                assert(ids@.to_set().contains(g));
                assert(ids@.subrange(0, i as int).contains(g));
            }
        }
        assert forall|g: u32| #[trigger] self.groups().contains_key(g) implies {
            &&& group_members(self.groups()[g]) == group_members(old_groups[g]).difference(l)
            &&& group_extranonce_size(self.groups()[g]) == group_extranonce_size(old_groups[g])
            &&& group_id(self.groups()[g]) == group_id(old_groups[g])
        } by {
            assert(old_groups.contains_key(g));
            assert(ids@.to_set().contains(g));
            assert(ids@.subrange(0, i as int).contains(g));
        }
    }

    /// CloseChannel: closes every open channel the message addresses (the members of a
    /// group, or the channel itself) and removes them from every group; groups left empty
    /// are dropped. Returns the closed channels, whose miners must stop.
    pub fn close_channel(&mut self, channel_id: u32) -> (closed: Vec<ChannelRef>)
        requires
            old(self).wf(),
        ensures
            final(self).wf(),
            closed@.no_duplicates(),
            closed@.to_set() == addressed_targets(
                old(self).standard(),
                old(self).extended(),
                old(self).groups(),
                channel_id,
            ),
            final(self).standard() == old(self).standard().remove_keys(
                addressed(old(self).groups(), channel_id),
            ),
            final(self).extended() == old(self).extended().remove_keys(
                addressed(old(self).groups(), channel_id).difference(old(self).standard().dom()),
            ),
            groups_left(
                old(self).groups(),
                final(self).groups(),
                closed_ids(old(self).standard(), old(self).extended(), old(self).groups(), channel_id),
            ),
            final(self).standard_jobs_only() == old(self).standard_jobs_only(),
    {
        let targets = self.route_to_addressed(channel_id);
        let ghost a = addressed(old(self).groups(), channel_id);
        let ghost std0 = old(self).standard();
        let ghost ext0 = old(self).extended();
        let mut closed_list: Vec<u32> = Vec::new();
        let mut i: usize = 0;
        while i < targets.len()
            invariant
                i <= targets@.len(),
                targets@.no_duplicates(),
                targets@.to_set() == addressed_targets(std0, ext0, old(self).groups(), channel_id),
                a == addressed(old(self).groups(), channel_id),
                std0 == old(self).standard(),
                ext0 == old(self).extended(),
                self.groups() == old(self).groups(),
                self.standard_jobs_only() == old(self).standard_jobs_only(),
                closed_list@.len() == i,
                forall|k: int| 0 <= k < i ==> #[trigger] closed_list@[k] == targets@[k].channel_id,
                forall|m: u32|
                    #[trigger] self.standard().contains_key(m) <==> (std0.contains_key(m) && !(
                    a.contains(m) && closed_list@.contains(m))),
                forall|m: u32|
                    #[trigger] self.extended().contains_key(m) <==> (ext0.contains_key(m) && !(
                    a.contains(m) && !std0.contains_key(m) && closed_list@.contains(m))),
                forall|m: u32| #[trigger] self.standard().contains_key(m) ==> self.standard()[m] == std0[m],
                forall|m: u32| #[trigger] self.extended().contains_key(m) ==> self.extended()[m] == ext0[m],
            decreases targets@.len() - i,
        {
            let t = targets[i];
            assert(targets@[i as int] == t);
            assert(targets@.contains(t));
            assert(targets@.to_set().contains(t));
            assert(a.contains(t.channel_id) && route_of(std0, ext0, t.channel_id) == Some(t.kind));
            let ghost cl0 = closed_list@;
            let ghost st0 = self.standard();
            let ghost ex0 = self.extended();
            match t.kind {
                ChannelKind::Standard => {
                    self.standard_channels.remove(&t.channel_id);
                },
                ChannelKind::Extended => {
                    self.extended_channels.remove(&t.channel_id);
                },
            }
            closed_list.push(t.channel_id);
            assert forall|m: u32| #[trigger] closed_list@.contains(m) <==> (cl0.contains(m) || m == t.channel_id) by {
                if closed_list@.contains(m) && m != t.channel_id {
                    let k = choose|k: int| 0 <= k < closed_list@.len() && #[trigger] closed_list@[k] == m;
                    assert(cl0[k] == m);
                }
                if cl0.contains(m) {
                    let k = choose|k: int| 0 <= k < cl0.len() && #[trigger] cl0[k] == m;
                    assert(closed_list@[k] == m);
                }
                if m == t.channel_id {
                    assert(closed_list@[i as int] == m);
                }
            }
            i = i + 1;
        }
        assert forall|m: u32| #[trigger] closed_list@.contains(m) <==> closed_ids(std0, ext0, old(self).groups(), channel_id).contains(m) by {
            if closed_list@.contains(m) {
                let k = choose|k: int| 0 <= k < closed_list@.len() && #[trigger] closed_list@[k] == m;
                assert(targets@.to_set().contains(targets@[k]));
            }
            if closed_ids(std0, ext0, old(self).groups(), channel_id).contains(m) {
                let r = ChannelRef { channel_id: m, kind: route_of(std0, ext0, m)->0 };
                assert(addressed_targets(std0, ext0, old(self).groups(), channel_id).contains(r));
                assert(targets@.contains(r));
                let k = choose|k: int| 0 <= k < targets@.len() && #[trigger] targets@[k] == r;
                assert(closed_list@[k] == m);
            }
        }
        assert(self.standard() =~= std0.remove_keys(a));
        assert(self.extended() =~= ext0.remove_keys(a.difference(std0.dom())));
        let ghost mid = self.groups();
        self.leave_groups(&closed_list);
        assert(closed_list@.to_set() =~= closed_ids(std0, ext0, old(self).groups(), channel_id));
        assert(self.wf()) by {
            let std = self.standard();
            let ext = self.extended();
            let groups = self.groups();
            let c = closed_ids(std0, ext0, old(self).groups(), channel_id);
            assert forall|g: u32, m: u32|
                groups.contains_key(g) && #[trigger] group_members(groups[g]).contains(m) implies is_open(
                std,
                ext,
                m,
            ) by {
                assert(group_members(mid[g]).contains(m));
                assert(!c.contains(m));
            }
        }
        targets
    }

    /// SetGroupChannel: group `group_channel_id` becomes exactly the listed channels, which
    /// leave their previous groups. The message is ignored when it reinterprets an open channel
    /// as a group, lists a channel that is not open, or lists channels whose full extranonce
    /// sizes differ. A connection that declared REQUIRES_STANDARD_JOBS refuses it.
    pub fn set_group_channel(&mut self, group_channel_id: u32, channel_ids: &Vec<u32>) -> (r: Result<(), Sv2CpuMinerError>)
        requires
            old(self).wf(),
        ensures
            final(self).wf(),
            old(self).standard_jobs_only() ==> r == Err::<(), Sv2CpuMinerError>(
                Sv2CpuMinerError::StandardJobsOnly("SetGroupChannel"),
            ),
            !old(self).standard_jobs_only() ==> r is Ok,
            final(self).standard() == old(self).standard(),
            final(self).extended() == old(self).extended(),
            final(self).standard_jobs_only() == old(self).standard_jobs_only(),
            ({
                let applies = !old(self).standard_jobs_only() && !is_open(
                    old(self).standard(),
                    old(self).extended(),
                    group_channel_id,
                ) && regroup_valid(old(self).standard(), old(self).extended(), channel_ids@);
                &&& applies ==> groups_regrouped(
                    old(self).groups(),
                    final(self).groups(),
                    group_channel_id,
                    channel_ids@,
                    if channel_ids@.len() > 0 {
                        size_of(old(self).standard(), old(self).extended(), channel_ids@[0])
                    } else {
                        None
                    },
                )
                &&& !applies ==> final(self).groups() == old(self).groups()
            }),
    {
        if self.requires_standard_jobs {
            return Err(Sv2CpuMinerError::StandardJobsOnly("SetGroupChannel"));
        }
        if self.standard_channels.contains_key(&group_channel_id)
            || self.extended_channels.contains_key(&group_channel_id) {
            return Ok(());
        }
        let ghost std0 = self.standard();
        let ghost ext0 = self.extended();
        let ghost ids = channel_ids@;
        // validate the whole redefinition before touching any group
        let mut redefined = new_group(group_channel_id);
        let mut i: usize = 0;
        while i < channel_ids.len()
            invariant
                i <= ids.len(),
                ids == channel_ids@,
                std0 == self.standard(),
                ext0 == self.extended(),
                std0 == old(self).standard(),
                ext0 == old(self).extended(),
                self.groups() == old(self).groups(),
                self.standard_jobs_only() == old(self).standard_jobs_only(),
                !self.standard_jobs_only(),
                !is_open(std0, ext0, group_channel_id),
                self.wf(),
                group_members(redefined) == ids.subrange(0, i as int).to_set(),
                group_id(redefined) == group_channel_id,
                i == 0 ==> group_extranonce_size(redefined) == None::<usize>,
                i > 0 ==> group_extranonce_size(redefined) == size_of(std0, ext0, ids[0]),
                forall|k: int|
                    0 <= k < i ==> is_open(std0, ext0, #[trigger] ids[k]) && size_of(std0, ext0, ids[k])
                        == size_of(std0, ext0, ids[0]),
            decreases ids.len() - i,
        {
            let channel_id = channel_ids[i];
            let size = match self.full_extranonce_size(channel_id) {
                Some(size) => size,
                None => {
                    assert(!regroup_valid(std0, ext0, ids)) by {
                        assert(!is_open(std0, ext0, ids[i as int]));
                    }
                    return Ok(());
                },
            };
            let ghost s0 = ids.subrange(0, i as int);
            if !group_add_channel(&mut redefined, channel_id, size) {
                assert(!regroup_valid(std0, ext0, ids)) by {
                    assert(size_of(std0, ext0, ids[i as int]) != size_of(std0, ext0, ids[0]));
                }
                return Ok(());
            }
            let ghost s1 = ids.subrange(0, i + 1);
            assert(s1 =~= s0.push(channel_id));
            assert forall|x: u32| s1.to_set().contains(x) <==> s0.to_set().insert(channel_id).contains(x) by {
                if s1.contains(x) && x != channel_id {
                    let k = choose|k: int| 0 <= k < s1.len() && #[trigger] s1[k] == x;
                    assert(s0[k] == x);
                }
                if s0.contains(x) {
                    let k = choose|k: int| 0 <= k < s0.len() && #[trigger] s0[k] == x;
                    assert(s1[k] == x);
                }
                if x == channel_id {
                    assert(s1[i as int] == x);
                }
            }
            assert(s1.to_set() =~= s0.to_set().insert(channel_id));
            i = i + 1;
        }
        assert(ids.subrange(0, ids.len() as int) =~= ids);
        assert(regroup_valid(std0, ext0, ids));
        // the listed channels leave their previous groups and the target group is redefined
        // as exactly the listed channels
        self.leave_groups(channel_ids);
        let ghost mid = self.groups();
        self.group_channels.remove(&group_channel_id);
        if channel_ids.len() > 0 {
            self.group_channels.insert(group_channel_id, redefined);
        }
        assert(self.wf()) by {
            let groups = self.groups();
            let l = ids.to_set();
            assert forall|g: u32| #[trigger] groups.contains_key(g) implies {
                &&& group_id(groups[g]) == g
                &&& group_members(groups[g]) != Set::<u32>::empty()
                &&& group_extranonce_size(groups[g]) is Some
                &&& !is_open(std0, ext0, g)
            } by {
                if g == group_channel_id {
                    assert(ids.len() > 0);
                    assert(l.contains(ids[0]));
                } else {
                    assert(mid.contains_key(g));
                }
            }
            assert forall|g: u32, m: u32|
                groups.contains_key(g) && #[trigger] group_members(groups[g]).contains(m) implies is_open(
                std0,
                ext0,
                m,
            ) by {
                if g == group_channel_id {
                    let k = choose|k: int| 0 <= k < ids.len() && #[trigger] ids[k] == m;
                } else {
                    assert(mid.contains_key(g));
                    assert(group_members(old(self).groups()[g]).contains(m));
                }
            }
        }
        Ok(())
    }

    /// Records the full extranonce size a channel has after its extranonce prefix changed.
    pub fn record_full_extranonce_size(&mut self, channel: ChannelRef, full_extranonce_size: usize)
        requires
            old(self).wf(),
        ensures
            final(self).wf(),
            final(self).groups() == old(self).groups(),
            final(self).standard_jobs_only() == old(self).standard_jobs_only(),
            final(self).standard() == (if channel.kind == ChannelKind::Standard && old(self).standard().contains_key(channel.channel_id) {
                old(self).standard().insert(channel.channel_id, full_extranonce_size)
            } else {
                old(self).standard()
            }),
            final(self).extended() == (if channel.kind == ChannelKind::Extended && old(self).extended().contains_key(channel.channel_id) {
                old(self).extended().insert(channel.channel_id, full_extranonce_size)
            } else {
                old(self).extended()
            }),
    {
        match channel.kind {
            ChannelKind::Standard => {
                if self.standard_channels.contains_key(&channel.channel_id) {
                    self.standard_channels.insert(channel.channel_id, full_extranonce_size);
                }
            },
            ChannelKind::Extended => {
                if self.extended_channels.contains_key(&channel.channel_id) {
                    self.extended_channels.insert(channel.channel_id, full_extranonce_size);
                }
            },
        }
        assert(self.standard().dom() =~= old(self).standard().dom());
        assert(self.extended().dom() =~= old(self).extended().dom());
    }

    /// Where SetNewPrevHash, SetTarget and CloseChannel for `channel_id` go.
    pub fn route_to_addressed(&self, channel_id: u32) -> (refs: Vec<ChannelRef>)
        ensures
            refs@.no_duplicates(),
            refs@.to_set() == addressed_targets(self.standard(), self.extended(), self.groups(), channel_id),
    {
        let ids = self.addressed_channels(channel_id);
        let refs = self.open_refs(&ids);
        assert(refs@.to_set() =~= addressed_targets(self.standard(), self.extended(), self.groups(), channel_id));
        refs
    }

    /// Where NewMiningJob for `channel_id` goes: only ever to that standard channel.
    pub fn route_new_mining_job(&self, channel_id: u32) -> (to_standard: bool)
        ensures
            to_standard == self.standard().contains_key(channel_id),
    {
        self.standard_channels.contains_key(&channel_id)
    }

    /// Where NewExtendedMiningJob for `channel_id` goes. A connection that declared
    /// REQUIRES_STANDARD_JOBS refuses the message, which ends the connection.
    pub fn route_new_extended_mining_job(&self, channel_id: u32) -> (r: Result<Vec<ChannelRef>, Sv2CpuMinerError>)
        ensures
            self.standard_jobs_only() ==> r == Err::<Vec<ChannelRef>, Sv2CpuMinerError>(
                Sv2CpuMinerError::StandardJobsOnly("NewExtendedMiningJob"),
            ),
            !self.standard_jobs_only() ==> r is Ok,
            r matches Ok(refs) ==> refs@.no_duplicates() && refs@.to_set() == extended_job_targets(
                self.standard(),
                self.extended(),
                self.groups(),
                channel_id,
            ),
    {
        if self.requires_standard_jobs {
            return Err(Sv2CpuMinerError::StandardJobsOnly("NewExtendedMiningJob"));
        }
        if self.group_channels.contains_key(&channel_id) {
            let refs = self.route_to_addressed(channel_id);
            return Ok(refs);
        }
        let mut refs: Vec<ChannelRef> = Vec::new();
        if self.extended_channels.contains_key(&channel_id) {
            refs.push(ChannelRef { channel_id, kind: ChannelKind::Extended });
            assert(refs@ == seq![ChannelRef { channel_id, kind: ChannelKind::Extended }]);
            let ghost only = ChannelRef { channel_id, kind: ChannelKind::Extended };
            assert(refs@[0] == only);
            assert(refs@.contains(only));
            assert(refs@.to_set() =~= set![only]);
        } else {
            assert(refs@.to_set() =~= Set::<ChannelRef>::empty());
        }
        Ok(refs)
    }

    /// Where SetExtranoncePrefix for `channel_id` goes: the standard channel and the extended
    /// channel of that id, whichever are open, in that order. It never addresses a group.
    pub fn route_set_extranonce_prefix(&self, channel_id: u32) -> (refs: Vec<ChannelRef>)
        ensures
            refs@ == (if self.standard().contains_key(channel_id) {
                seq![ChannelRef { channel_id, kind: ChannelKind::Standard }]
            } else {
                Seq::<ChannelRef>::empty()
            }) + (if self.extended().contains_key(channel_id) {
                seq![ChannelRef { channel_id, kind: ChannelKind::Extended }]
            } else {
                Seq::<ChannelRef>::empty()
            }),
    {
        let mut refs: Vec<ChannelRef> = Vec::new();
        if self.standard_channels.contains_key(&channel_id) {
            refs.push(ChannelRef { channel_id, kind: ChannelKind::Standard });
        }
        if self.extended_channels.contains_key(&channel_id) {
            refs.push(ChannelRef { channel_id, kind: ChannelKind::Extended });
        }
        assert(refs@ =~= (if self.standard().contains_key(channel_id) {
                seq![ChannelRef { channel_id, kind: ChannelKind::Standard }]
            } else {
                Seq::<ChannelRef>::empty()
            }) + (if self.extended().contains_key(channel_id) {
                seq![ChannelRef { channel_id, kind: ChannelKind::Extended }]
            } else {
                Seq::<ChannelRef>::empty()
            }));
        refs
    }
}

} // verus!

verus! {

/// After a SetGroupChannel that applies with a non-empty list, a NewExtendedMiningJob
/// addressed to the group reaches exactly the listed channels, and no other group still
/// holds any of them.
pub proof fn law_regrouped_job_reaches_exactly_the_listed_channels(
    std: Map<u32, usize>,
    ext: Map<u32, usize>,
    old_groups: Map<u32, GroupChannel>,
    new_groups: Map<u32, GroupChannel>,
    group_channel_id: u32,
    ids: Seq<u32>,
)
    requires
        groups_wf(std, ext, old_groups),
        !is_open(std, ext, group_channel_id),
        regroup_valid(std, ext, ids),
        ids.len() > 0,
        groups_regrouped(old_groups, new_groups, group_channel_id, ids, size_of(std, ext, ids[0])),
    ensures
        extended_job_targets(std, ext, new_groups, group_channel_id) == Set::new(
            |r: ChannelRef| ids.contains(r.channel_id) && route_of(std, ext, r.channel_id) == Some(r.kind),
        ),
        forall|g: u32, m: u32|
            g != group_channel_id && new_groups.contains_key(g) && ids.contains(m)
                ==> !(#[trigger] group_members(new_groups[g]).contains(m)),
{
    assert(new_groups.contains_key(group_channel_id));
    assert(extended_job_targets(std, ext, new_groups, group_channel_id) =~= Set::new(
        |r: ChannelRef| ids.contains(r.channel_id) && route_of(std, ext, r.channel_id) == Some(r.kind),
    ));
    assert forall|g: u32, m: u32|
        g != group_channel_id && new_groups.contains_key(g) && ids.contains(m)
            implies !(#[trigger] group_members(new_groups[g]).contains(m)) by {
        assert(ids.to_set().contains(m));
    }
}

/// A CloseChannel addressed to a group closes every member: afterwards the group is gone,
/// none of its former members is open, and no group holds any of them. (A channel id open
/// both as a standard and as an extended channel loses only its standard channel.)
pub proof fn law_closing_a_group_closes_its_members(
    std: Map<u32, usize>,
    ext: Map<u32, usize>,
    groups: Map<u32, GroupChannel>,
    new_std: Map<u32, usize>,
    new_ext: Map<u32, usize>,
    new_groups: Map<u32, GroupChannel>,
    group_channel_id: u32,
)
    requires
        groups_wf(std, ext, groups),
        groups.contains_key(group_channel_id),
        forall|m: u32|
            #[trigger] group_members(groups[group_channel_id]).contains(m) ==> !(std.contains_key(m)
                && ext.contains_key(m)),
        new_std == std.remove_keys(addressed(groups, group_channel_id)),
        new_ext == ext.remove_keys(addressed(groups, group_channel_id).difference(std.dom())),
        groups_left(groups, new_groups, closed_ids(std, ext, groups, group_channel_id)),
    ensures
        !new_groups.contains_key(group_channel_id),
        forall|m: u32|
            #[trigger] group_members(groups[group_channel_id]).contains(m) ==> !is_open(new_std, new_ext, m),
        forall|g: u32, m: u32|
            new_groups.contains_key(g) && group_members(groups[group_channel_id]).contains(m)
                ==> !(#[trigger] group_members(new_groups[g]).contains(m)),
{
    let members = group_members(groups[group_channel_id]);
    let closed = closed_ids(std, ext, groups, group_channel_id);
    assert(members.difference(closed) =~= Set::<u32>::empty()) by {
        assert forall|m: u32| members.contains(m) implies closed.contains(m) by {
            assert(is_open(std, ext, m));
        }
    }
    assert forall|g: u32, m: u32|
        new_groups.contains_key(g) && members.contains(m)
            implies !(#[trigger] group_members(new_groups[g]).contains(m)) by {
        assert(is_open(std, ext, m));
        assert(closed.contains(m));
    }
}

/// A channel kept on opening is a member of its group, so every job addressed to that group
/// reaches it.
pub proof fn law_opened_channel_receives_its_group_jobs(
    std: Map<u32, usize>,
    ext: Map<u32, usize>,
    groups: Map<u32, GroupChannel>,
    new_std: Map<u32, usize>,
    new_groups: Map<u32, GroupChannel>,
    channel_id: u32,
    group_channel_id: u32,
    extranonce_prefix_len: usize,
)
    requires
        groups_wf(std, ext, groups),
        !join_refused(std, ext, groups, channel_id, group_channel_id, extranonce_prefix_len),
        groups_joined(groups, new_groups, channel_id, group_channel_id, extranonce_prefix_len),
        new_std == std.insert(channel_id, extranonce_prefix_len),
    ensures
        extended_job_targets(new_std, ext, new_groups, group_channel_id).contains(
            ChannelRef { channel_id, kind: ChannelKind::Standard },
        ),
        addressed_targets(new_std, ext, new_groups, group_channel_id).contains(
            ChannelRef { channel_id, kind: ChannelKind::Standard },
        ),
{
    assert(group_members(new_groups[group_channel_id]).contains(channel_id));
}

/// A job addressed to a group reaches only open members of that group, never a channel
/// outside it, and a job addressed to a standard channel itself reaches nothing.
pub proof fn law_group_job_reaches_only_its_members(
    std: Map<u32, usize>,
    ext: Map<u32, usize>,
    groups: Map<u32, GroupChannel>,
    id: u32,
    r: ChannelRef,
)
    requires
        extended_job_targets(std, ext, groups, id).contains(r),
    ensures
        groups.contains_key(id) ==> group_members(groups[id]).contains(r.channel_id),
        !groups.contains_key(id) ==> r.channel_id == id && r.kind == ChannelKind::Extended,
        is_open(std, ext, r.channel_id),
{
}


/// The channel requests of a connection: request `i` carries request id `i`; the first
/// `n_standard` are standard channels and every later one, up to `n_standard + n_extended`,
/// is an extended channel. So exactly `n_standard` standard and `n_extended` extended
/// channels are requested (an extended-only configuration requests only extended ones).
pub proof fn law_requests_open_the_configured_kinds(n_standard: u8, n_extended: u8, i: int)
    requires
        0 <= i < n_standard + n_extended,
    ensures
        request_at(i, n_standard).request_id == i,
        request_at(i, n_standard).kind == ChannelKind::Standard <==> i < n_standard,
        request_at(i, n_standard).kind == ChannelKind::Extended <==> n_standard <= i,
{
}

/// A SetGroupChannel list is accepted exactly when every listed channel is open (as a
/// standard or as an extended channel, in any mix) and has the full extranonce size of the
/// first listed channel; the kinds of the channels play no part.
pub proof fn law_regroup_accepts_open_channels_of_one_size(
    std: Map<u32, usize>,
    ext: Map<u32, usize>,
    ids: Seq<u32>,
)
    ensures
        regroup_valid(std, ext, ids) <==> forall|i: int|
            #![trigger ids[i]]
            0 <= i < ids.len() ==> {
                &&& std.contains_key(ids[i]) || ext.contains_key(ids[i])
                &&& (if std.contains_key(ids[i]) { std[ids[i]] } else { ext[ids[i]] }) == (
                if std.contains_key(ids[0]) { std[ids[0]] } else { ext[ids[0]] })
            },
{
    if regroup_valid(std, ext, ids) {
        assert forall|i: int| #![trigger ids[i]] 0 <= i < ids.len() implies {
            &&& std.contains_key(ids[i]) || ext.contains_key(ids[i])
            &&& (if std.contains_key(ids[i]) { std[ids[i]] } else { ext[ids[i]] }) == (
            if std.contains_key(ids[0]) { std[ids[0]] } else { ext[ids[0]] })
        } by {
            assert(is_open(std, ext, ids[i]));
            assert(is_open(std, ext, ids[0]));
        }
    }
}

/// A standard channel and an extended channel with one full extranonce size can form a
/// group together: a SetGroupChannel listing them both is accepted.
pub proof fn law_regroup_mixes_standard_and_extended(
    std: Map<u32, usize>,
    ext: Map<u32, usize>,
    standard_id: u32,
    extended_id: u32,
)
    requires
        std.contains_key(standard_id),
        ext.contains_key(extended_id),
        !std.contains_key(extended_id),
        std[standard_id] == ext[extended_id],
    ensures
        regroup_valid(std, ext, seq![standard_id, extended_id]),
        regroup_valid(std, ext, seq![extended_id, standard_id]),
{
    law_regroup_accepts_open_channels_of_one_size(std, ext, seq![standard_id, extended_id]);
    law_regroup_accepts_open_channels_of_one_size(std, ext, seq![extended_id, standard_id]);
    assert(seq![standard_id, extended_id][1] == extended_id);
    assert(seq![extended_id, standard_id][1] == standard_id);
}

/// Where SetNewPrevHash, SetTarget and CloseChannel go. For an id that names no group: to
/// the open channel of that id, under its kind (the standard one when both kinds share the
/// id), and nowhere when it is not open. For a group id: to each member that is open, under
/// its kind.
pub proof fn law_addressed_targets_are_the_open_addressed_channels(
    std: Map<u32, usize>,
    ext: Map<u32, usize>,
    groups: Map<u32, GroupChannel>,
    id: u32,
)
    ensures
        !groups.contains_key(id) ==> addressed_targets(std, ext, groups, id) == (if std.contains_key(id) {
            set![ChannelRef { channel_id: id, kind: ChannelKind::Standard }]
        } else if ext.contains_key(id) {
            set![ChannelRef { channel_id: id, kind: ChannelKind::Extended }]
        } else {
            Set::<ChannelRef>::empty()
        }),
        groups.contains_key(id) ==> forall|r: ChannelRef|
            #[trigger] addressed_targets(std, ext, groups, id).contains(r) <==> {
                &&& group_members(groups[id]).contains(r.channel_id)
                &&& (r.kind == ChannelKind::Standard ==> std.contains_key(r.channel_id))
                &&& (r.kind == ChannelKind::Extended ==> ext.contains_key(r.channel_id)
                    && !std.contains_key(r.channel_id))
            },
{
    if !groups.contains_key(id) {
        assert(addressed_targets(std, ext, groups, id) =~= (if std.contains_key(id) {
            set![ChannelRef { channel_id: id, kind: ChannelKind::Standard }]
        } else if ext.contains_key(id) {
            set![ChannelRef { channel_id: id, kind: ChannelKind::Extended }]
        } else {
            Set::<ChannelRef>::empty()
        }));
    }
}

/// An extended channel addressed by its own id (not a group, not also a standard channel)
/// receives SetNewPrevHash and SetTarget, and a CloseChannel for it closes it.
pub proof fn law_extended_channel_receives_its_own_messages(
    std: Map<u32, usize>,
    ext: Map<u32, usize>,
    groups: Map<u32, GroupChannel>,
    id: u32,
)
    requires
        ext.contains_key(id),
        !std.contains_key(id),
        !groups.contains_key(id),
    ensures
        addressed_targets(std, ext, groups, id) == set![ChannelRef { channel_id: id, kind: ChannelKind::Extended }],
{
    law_addressed_targets_are_the_open_addressed_channels(std, ext, groups, id);
}

} // verus!
