//! Platform roles, as the library sees them.

use vstd::prelude::*;

verus! {

/// A role of a guild, resolved from the platform.
///
/// Role identifiers are unique across all guilds.
#[derive(Debug, PartialEq, Eq)]
pub struct Role {
    pub id: u64,
    pub name: String,
    pub guild_id: u64,
    /// Rank of the role in its guild; the implicit role sits at the bottom.
    pub position: i64,
}

impl Role {
    /// The implicit role that every member of a guild holds: it carries the
    /// reserved name and a rank of zero or below.
    pub open spec fn is_everyone_spec(&self) -> bool {
        &&& self.name@ == "@everyone"@
        &&& self.position <= 0
    }

    /// Whether this is the implicit role that every member holds.
    pub fn is_everyone(&self) -> (r: bool)
        ensures
            r == self.is_everyone_spec(),
    {
        let reserved = "@everyone".to_owned();
        self.position <= 0 && self.name == reserved
    }
}

impl Clone for Role {
    fn clone(&self) -> (r: Self)
        ensures
            r == *self,
    {
        Role { id: self.id, name: self.name.clone(), guild_id: self.guild_id, position: self.position }
    }
}

} // verus!
