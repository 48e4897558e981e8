//! The registry of groups, which keeps the groups of a guild apart.

use vstd::prelude::*;

use crate::group::{Channel, Group, same_role};
use crate::role::Role;

verus! {

/// What a new group would share with an existing one.
#[derive(PartialEq, Eq, Structural, Clone, Copy, Debug)]
pub enum ConflictingAttribute {
    Channel,
    Role,
}

/// Why a group could not be created.
#[derive(PartialEq, Eq, Structural, Clone, Copy, Debug)]
pub enum GroupError {
    /// Another group of the guild already uses the channel or the role.
    Overlap(ConflictingAttribute),
    /// The channel is not a text channel of the guild.
    InvalidChannel,
}

/// Some group of guild `guild_id` in `groups` uses channel `channel_id`.
pub open spec fn channel_taken(groups: Seq<Group>, guild_id: u64, channel_id: u64) -> bool {
    exists|i: int|
        0 <= i < groups.len() && (#[trigger] groups[i]).guild_id == guild_id && groups[i].channel.id
            == channel_id
}

/// `role` is present and some group of guild `guild_id` in `groups` uses it.
pub open spec fn role_taken(groups: Seq<Group>, guild_id: u64, role: Option<Role>) -> bool {
    exists|i: int|
        0 <= i < groups.len() && (#[trigger] groups[i]).guild_id == guild_id && same_role(
            groups[i].role,
            role,
        )
}

/// What creating `candidate` next to `groups` answers. A bad channel is
/// reported first; a shared channel is reported before a shared role.
pub open spec fn create_outcome(groups: Seq<Group>, candidate: Group) -> Result<Group, GroupError> {
    if !candidate.channel.is_text_in_spec(candidate.guild_id) {
        Err(GroupError::InvalidChannel)
    } else if channel_taken(groups, candidate.guild_id, candidate.channel.id) {
        Err(GroupError::Overlap(ConflictingAttribute::Channel))
    } else if role_taken(groups, candidate.guild_id, candidate.role) {
        Err(GroupError::Overlap(ConflictingAttribute::Role))
    } else {
        Ok(candidate)
    }
}

/// The groups after trying to create `candidate`: appended on success,
/// unchanged otherwise.
pub open spec fn after_create(groups: Seq<Group>, candidate: Group) -> Seq<Group> {
    if create_outcome(groups, candidate) is Ok {
        groups.push(candidate)
    } else {
        groups
    }
}

/// No two distinct groups of `groups` overlap.
pub open spec fn no_overlap(groups: Seq<Group>) -> bool {
    forall|i: int, j: int|
        #![trigger groups[i], groups[j]]
        0 <= i < groups.len() && 0 <= j < groups.len() && i != j ==> !groups[i].overlaps(&groups[j])
}

/// The answers to creating each of `candidates` in turn, starting from
/// `groups`.
pub open spec fn create_all(groups: Seq<Group>, candidates: Seq<Group>) -> Seq<
    Result<Group, GroupError>,
>
    decreases candidates.len(),
{
    if candidates.len() == 0 {
        Seq::empty()
    } else {
        seq![create_outcome(groups, candidates[0])] + create_all(
            after_create(groups, candidates[0]),
            candidates.drop_first(),
        )
    }
}

/// Holds of the groups of guild `guild_id`.
pub open spec fn group_of_guild(guild_id: u64) -> spec_fn(Group) -> bool {
    |g: Group| g.guild_id == guild_id
}

/// All groups, in the order of their creation. No two groups of one guild
/// share a channel or a role.
#[derive(Debug)]
pub struct GroupRegistry {
    groups: Vec<Group>,
}

impl View for GroupRegistry {
    type V = Seq<Group>;

    closed spec fn view(&self) -> Seq<Group> {
        self.groups@
    }
}

impl GroupRegistry {
    /// No two groups overlap.
    pub closed spec fn wf(&self) -> bool {
        no_overlap(self.groups@)
    }

    /// A registry with no group.
    pub fn new() -> (r: GroupRegistry)
        ensures
            r.wf(),
            r@ == Seq::<Group>::empty(),
    {
        GroupRegistry { groups: Vec::new() }
    }

    /// Creates the group `name` on `channel`, bound to `role` if one is
    /// given, in guild `guild_id`, unless the channel is not a text channel of
    /// that guild or another group of the guild uses the channel or the role.
    /// Check and insertion are one step: a call sees every group created
    /// before it.
    pub fn create_group(
        &mut self,
        name: String,
        channel: Channel,
        role: Option<Role>,
        guild_id: u64,
    ) -> (r: Result<Group, GroupError>)
        requires
            old(self).wf(),
        ensures
            final(self).wf(),
            r == create_outcome(old(self)@, (Group { name, channel, role, guild_id })),
            final(self)@ == after_create(old(self)@, (Group { name, channel, role, guild_id })),
            r == Err::<Group, GroupError>(GroupError::InvalidChannel) ==> final(self)@ == old(self)@,
    {
        let candidate = Group { name, channel, role, guild_id };
        if !candidate.channel.is_text_in(guild_id) {
            return Err(GroupError::InvalidChannel);
        }
        let mut channel_conflict = false;
        let mut role_conflict = false;
        let mut i: usize = 0;
        while i < self.groups.len()
            invariant
                0 <= i <= self.groups@.len(),
                candidate.guild_id == guild_id,
                channel_conflict == channel_taken(
                    self.groups@.subrange(0, i as int),
                    guild_id,
                    candidate.channel.id,
                ),
                role_conflict == role_taken(self.groups@.subrange(0, i as int), guild_id, candidate.role),
            decreases self.groups@.len() - i,
        {
            let existing = &self.groups[i];
            let ghost prefix = self.groups@.subrange(0, i as int);
            let ghost next = self.groups@.subrange(0, i + 1);
            if existing.guild_id == guild_id {
                if existing.channel.id == candidate.channel.id {
                    channel_conflict = true;
                }
                let shares_role = match (&existing.role, &candidate.role) {
                    (Some(theirs), Some(mine)) => theirs.id == mine.id,
                    _ => false,
                };
                if shares_role {
                    role_conflict = true;
                }
            }
            proof {
                assert(next[i as int] == self.groups@[i as int]);
                assert forall|k: int| 0 <= k < i implies next[k] == #[trigger] prefix[k] by {}
                if channel_taken(next, guild_id, candidate.channel.id) {
                    let k = choose|k: int|
                        0 <= k < next.len() && (#[trigger] next[k]).guild_id == guild_id
                            && next[k].channel.id == candidate.channel.id;
                    if k < i {
                        assert(prefix[k] == next[k]);
                    }
                }
                if channel_taken(prefix, guild_id, candidate.channel.id) {
                    let k = choose|k: int|
                        0 <= k < prefix.len() && (#[trigger] prefix[k]).guild_id == guild_id
                            && prefix[k].channel.id == candidate.channel.id;
                    assert(next[k] == prefix[k]);
                }
                if role_taken(next, guild_id, candidate.role) {
                    let k = choose|k: int|
                        0 <= k < next.len() && (#[trigger] next[k]).guild_id == guild_id && same_role(
                            next[k].role,
                            candidate.role,
                        );
                    if k < i {
                        assert(prefix[k] == next[k]);
                    }
                }
                if role_taken(prefix, guild_id, candidate.role) {
                    let k = choose|k: int|
                        0 <= k < prefix.len() && (#[trigger] prefix[k]).guild_id == guild_id && same_role(
                            prefix[k].role,
                            candidate.role,
                        );
                    assert(next[k] == prefix[k]);
                }
            }
            i = i + 1;
        }
        proof {
            assert(self.groups@.subrange(0, self.groups@.len() as int) =~= self.groups@);
        }
        if channel_conflict {
            return Err(GroupError::Overlap(ConflictingAttribute::Channel));
        }
        if role_conflict {
            return Err(GroupError::Overlap(ConflictingAttribute::Role));
        }
        let ghost before = self.groups@;
        self.groups.push(candidate.clone());
        proof {
            let after = self.groups@;
            assert forall|a: int, b: int|
                #![trigger after[a], after[b]]
                0 <= a < after.len() && 0 <= b < after.len() && a != b implies !after[a].overlaps(
                &after[b],
            ) by {
                if a < before.len() && b < before.len() {
                    assert(after[a] == before[a] && after[b] == before[b]);
                } else if a < before.len() {
                    assert(after[a] == before[a]);
                } else {
                    assert(after[b] == before[b]);
                }
            }
        }
        Ok(candidate)
    }

    /// The groups of guild `guild_id`, in the order of their creation.
    pub fn list_groups(&self, guild_id: u64) -> (r: Vec<Group>)
        ensures
            r@ == self@.filter(group_of_guild(guild_id)),
    {
        let mut out: Vec<Group> = Vec::new();
        let mut i: usize = 0;
        while i < self.groups.len()
            invariant
                0 <= i <= self.groups@.len(),
                out@ == self.groups@.subrange(0, i as int).filter(group_of_guild(guild_id)),
            decreases self.groups@.len() - i,
        {
            proof {
                reveal(Seq::filter);
                assert(self.groups@.subrange(0, i + 1).drop_last() =~= self.groups@.subrange(0, i as int));
            }
            if self.groups[i].guild_id == guild_id {
                out.push(self.groups[i].clone());
            }
            i = i + 1;
        }
        proof {
            assert(self.groups@.subrange(0, self.groups@.len() as int) =~= self.groups@);
        }
        out
    }
}

/// Two distinct groups of one guild in a registry never share a channel,
/// nor a role when both have one.
pub proof fn lemma_groups_exclusive(registry: GroupRegistry, i: int, j: int)
    requires
        registry.wf(),
        0 <= i < registry@.len(),
        0 <= j < registry@.len(),
        i != j,
        registry@[i].guild_id == registry@[j].guild_id,
    ensures
        registry@[i].channel.id != registry@[j].channel.id,
        registry@[i].role is Some && registry@[j].role is Some ==> registry@[i].role->Some_0.id
            != registry@[j].role->Some_0.id,
{
    assert(!registry@[i].overlaps(&registry@[j]));
}

/// Once a guild's channel is taken, every creation on it fails with a
/// channel overlap and leaves the groups as they are.
proof fn lemma_taken_channel_refuses_all(groups: Seq<Group>, candidates: Seq<Group>, guild_id: u64, channel: Channel)
    requires
        channel_taken(groups, guild_id, channel.id),
        channel.is_text_in_spec(guild_id),
        forall|k: int|
            0 <= k < candidates.len() ==> (#[trigger] candidates[k]).guild_id == guild_id
                && candidates[k].channel == channel,
    ensures
        create_all(groups, candidates).len() == candidates.len(),
        forall|k: int|
            0 <= k < candidates.len() ==> #[trigger] create_all(groups, candidates)[k]
                == Err::<Group, GroupError>(GroupError::Overlap(ConflictingAttribute::Channel)),
    decreases candidates.len(),
{
    if candidates.len() > 0 {
        let rest = candidates.drop_first();
        assert forall|k: int| 0 <= k < rest.len() implies (#[trigger] rest[k]).guild_id == guild_id
            && rest[k].channel == channel by {
            assert(rest[k] == candidates[k + 1]);
        }
        lemma_taken_channel_refuses_all(groups, rest, guild_id, channel);
        let all = create_all(groups, candidates);
        assert forall|k: int| 0 <= k < candidates.len() implies #[trigger] all[k]
            == Err::<Group, GroupError>(GroupError::Overlap(ConflictingAttribute::Channel)) by {
            if k > 0 {
                assert(all[k] == create_all(groups, rest)[k - 1]);
            }
        }
    }
}

/// Creations that all target one free text channel of one guild, however
/// they are ordered: exactly the first succeeds, and every later one fails
/// because the channel is taken. (The first must not reuse a role that a
/// group of the guild already has.)
pub proof fn lemma_one_creation_per_channel(groups: Seq<Group>, candidates: Seq<Group>)
    requires
        candidates.len() > 0,
        forall|k: int|
            0 <= k < candidates.len() ==> (#[trigger] candidates[k]).guild_id
                == candidates[0].guild_id && candidates[k].channel == candidates[0].channel,
        candidates[0].channel.is_text_in_spec(candidates[0].guild_id),
        !channel_taken(groups, candidates[0].guild_id, candidates[0].channel.id),
        !role_taken(groups, candidates[0].guild_id, candidates[0].role),
    ensures
        create_all(groups, candidates).len() == candidates.len(),
        create_all(groups, candidates)[0] == Ok::<Group, GroupError>(candidates[0]),
        forall|k: int|
            1 <= k < candidates.len() ==> #[trigger] create_all(groups, candidates)[k]
                == Err::<Group, GroupError>(GroupError::Overlap(ConflictingAttribute::Channel)),
{
    let first = candidates[0];
    let after = groups.push(first);
    let rest = candidates.drop_first();
    assert(after[groups.len() as int] == first);
    assert(channel_taken(after, first.guild_id, first.channel.id));
    assert forall|k: int| 0 <= k < rest.len() implies (#[trigger] rest[k]).guild_id == first.guild_id
        && rest[k].channel == first.channel by {
        assert(rest[k] == candidates[k + 1]);
    }
    lemma_taken_channel_refuses_all(after, rest, first.guild_id, first.channel);
    let all = create_all(groups, candidates);
    assert forall|k: int| 1 <= k < candidates.len() implies #[trigger] all[k]
        == Err::<Group, GroupError>(GroupError::Overlap(ConflictingAttribute::Channel)) by {
        assert(all[k] == create_all(after, rest)[k - 1]);
    }
}

} // verus!
