//! Channels and the groups bound to them.

use vstd::prelude::*;

use crate::role::Role;

verus! {

/// The kind of a channel, as the platform reports it.
#[derive(PartialEq, Eq, Structural, Clone, Copy, Debug)]
pub enum ChannelKind {
    Text,
    Private,
    Voice,
    Category,
    News,
    NewsThread,
    PublicThread,
    PrivateThread,
    Stage,
    Directory,
    Forum,
    Unknown,
}

/// A channel, resolved from the platform.
#[derive(PartialEq, Eq, Structural, Clone, Copy, Debug)]
pub struct Channel {
    pub id: u64,
    pub kind: ChannelKind,
    /// The guild the channel belongs to; none for a direct conversation.
    pub guild_id: Option<u64>,
}

impl Channel {
    /// A text channel of guild `guild_id`: the only kind a group can use.
    pub open spec fn is_text_in_spec(&self, guild_id: u64) -> bool {
        &&& self.kind == ChannelKind::Text
        &&& self.guild_id == Some(guild_id)
    }

    /// Whether this is a text channel of guild `guild_id`.
    pub fn is_text_in(&self, guild_id: u64) -> (r: bool)
        ensures
            r == self.is_text_in_spec(guild_id),
    {
        match self.guild_id {
            Some(g) => g == guild_id && self.kind == ChannelKind::Text,
            None => false,
        }
    }
}

/// Two optional roles are the same role: both present, with one identifier.
pub open spec fn same_role(a: Option<Role>, b: Option<Role>) -> bool {
    &&& a is Some
    &&& b is Some
    &&& a->Some_0.id == b->Some_0.id
}

/// A set of members of a guild, bound to a text channel and possibly to a
/// role. A group without a role stands for everyone in the guild.
#[derive(Debug, PartialEq, Eq)]
pub struct Group {
    pub name: String,
    pub channel: Channel,
    pub role: Option<Role>,
    pub guild_id: u64,
}

impl Group {
    /// Two groups of one guild that share their channel, or share a role.
    pub open spec fn overlaps(&self, other: &Group) -> bool {
        &&& self.guild_id == other.guild_id
        &&& (self.channel.id == other.channel.id || same_role(self.role, other.role))
    }

    /// Whether `self` and `other` cannot both exist.
    pub fn overlap(&self, other: &Group) -> (r: bool)
        ensures
            r == self.overlaps(other),
    {
        let role_overlap = match (&self.role, &other.role) {
            (Some(mine), Some(theirs)) => mine.id == theirs.id,
            _ => false,
        };
        (self.channel.id == other.channel.id || role_overlap) && self.guild_id == other.guild_id
    }
}

impl Clone for Group {
    fn clone(&self) -> (r: Self)
        ensures
            r == *self,
    {
        let role = match &self.role {
            Some(role) => Some(role.clone()),
            None => None,
        };
        Group { name: self.name.clone(), channel: self.channel, role, guild_id: self.guild_id }
    }
}

} // verus!
