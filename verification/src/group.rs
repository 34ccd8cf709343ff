//! The group channels of `channels_sv2`, as the channel manager uses them: a set of member
//! channel ids that all share one full extranonce size.
use vstd::prelude::*;
use stratum_apps::stratum_core::channels_sv2::client::group::GroupChannel;

verus! {

#[verifier::external_type_specification]
#[verifier::external_body]
pub struct ExGroupChannel(GroupChannel);

/// The channel ids a group channel holds.
pub uninterp spec fn group_members(g: GroupChannel) -> Set<u32>;

/// The full extranonce size every member of the group shares; set by the first member ever
/// added and kept from then on.
pub uninterp spec fn group_extranonce_size(g: GroupChannel) -> Option<usize>;

/// The id the group channel was created with.
pub uninterp spec fn group_id(g: GroupChannel) -> u32;

/// `GroupChannel::new`: an empty group with no extranonce size yet.
#[verifier::external_body]
pub fn new_group(group_channel_id: u32) -> (g: GroupChannel)
    ensures
        group_members(g) == Set::<u32>::empty(),
        group_extranonce_size(g) == None::<usize>,
        group_id(g) == group_channel_id,
{
    GroupChannel::new(group_channel_id)
}

/// `GroupChannel::add_channel_id`: refuses (changing nothing) a size that differs from the
/// group's; otherwise adds the channel and fixes the group's size. The outside error, a size
/// mismatch, becomes `false`.
#[verifier::external_body]
pub fn group_add_channel(g: &mut GroupChannel, channel_id: u32, full_extranonce_size: usize) -> (added: bool)
    ensures
        added == match group_extranonce_size(*old(g)) {
            Some(e) => e == full_extranonce_size,
            None => true,
        },
        added ==> group_members(*final(g)) == group_members(*old(g)).insert(channel_id),
        added ==> group_extranonce_size(*final(g)) == Some(full_extranonce_size),
        !added ==> group_members(*final(g)) == group_members(*old(g)),
        !added ==> group_extranonce_size(*final(g)) == group_extranonce_size(*old(g)),
        group_id(*final(g)) == group_id(*old(g)),
{
    g.add_channel_id(channel_id, full_extranonce_size).is_ok()
}

/// `GroupChannel::remove_channel_id`: the channel leaves the group; the size is kept.
#[verifier::external_body]
pub fn group_remove_channel(g: &mut GroupChannel, channel_id: u32)
    ensures
        group_members(*final(g)) == group_members(*old(g)).remove(channel_id),
        group_extranonce_size(*final(g)) == group_extranonce_size(*old(g)),
        group_id(*final(g)) == group_id(*old(g)),
{
    g.remove_channel_id(channel_id)
}

/// `GroupChannel::get_channel_ids`, collected: every member once, in the set's own order.
#[verifier::external_body]
pub fn group_channel_ids(g: &GroupChannel) -> (ids: Vec<u32>)
    ensures
        ids@.to_set() == group_members(*g),
        ids@.no_duplicates(),
{
    g.get_channel_ids().copied().collect()
}

/// `GroupChannel::get_full_extranonce_size`.
#[verifier::external_body]
pub fn group_full_extranonce_size(g: &GroupChannel) -> (size: Option<usize>)
    ensures
        size == group_extranonce_size(*g),
{
    g.get_full_extranonce_size()
}

/// `GroupChannel::is_empty`.
#[verifier::external_body]
pub fn group_is_empty(g: &GroupChannel) -> (empty: bool)
    ensures
        empty == (group_members(*g) == Set::<u32>::empty()),
{
    g.is_empty()
}

} // verus!
